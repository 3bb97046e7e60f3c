//! The header rewrite policy: hop-by-hop pruning and identity stamping,
//! for the upstream request and for the response handed back to the client.
//!
//! Header names are compared ASCII-case-insensitively; the names this
//! policy emits are lowercase.

use vstd::prelude::*;
use vstd::string::StrSliceExecFns;

verus! {

/// A request's identity as it travels through the forwarder.
pub struct Proxy {
    /// The per-request identifier, in hyphenated lowercase form.
    pub id: String,
    /// How many attempts the retry driver has made for this request.
    pub retries: u32,
}

/// The ASCII code of `c` with an upper-case letter folded to lower case.
pub open spec fn spec_lower_code(c: char) -> int {
    if 65 <= c as u32 <= 90 {
        c as u32 + 32
    } else {
        c as u32 as int
    }
}

/// ASCII-case-insensitive equality of two header names.
pub open spec fn spec_name_eq_ci(a: Seq<char>, b: Seq<char>) -> bool {
    a.len() == b.len() && (forall|i: int|
        0 <= i < a.len() ==> spec_lower_code(#[trigger] a[i]) == spec_lower_code(b[i]))
}

/// Whether `name` is one of the fixed hop-by-hop header names that an
/// intermediary must not forward.
pub open spec fn spec_is_hop_by_hop(name: Seq<char>) -> bool {
    ||| spec_name_eq_ci(name, "connection"@)
    ||| spec_name_eq_ci(name, "proxy-connection"@)
    ||| spec_name_eq_ci(name, "keep-alive"@)
    ||| spec_name_eq_ci(name, "proxy-authenticate"@)
    ||| spec_name_eq_ci(name, "proxy-authorization"@)
    ||| spec_name_eq_ci(name, "te"@)
    ||| spec_name_eq_ci(name, "trailer"@)
    ||| spec_name_eq_ci(name, "transfer-encoding"@)
    ||| spec_name_eq_ci(name, "upgrade"@)
}

/// Which names a rewrite keeps: the inbound rewrite drops the whole
/// hop-by-hop set; the response rewrite drops only `connection`.
pub open spec fn spec_header_kept(name: Seq<char>, strip_all_hop: bool) -> bool {
    if strip_all_hop {
        !spec_is_hop_by_hop(name)
    } else {
        !spec_name_eq_ci(name, "connection"@)
    }
}

/// The headers that survive a rewrite, in their original order.
pub open spec fn spec_keep_headers(headers: Seq<(String, String)>, strip_all_hop: bool) -> Seq<
    (String, String),
>
    decreases headers.len(),
{
    if headers.len() == 0 {
        Seq::empty()
    } else {
        let rest = spec_keep_headers(headers.drop_first(), strip_all_hop);
        if spec_header_kept(headers[0].0@, strip_all_hop) {
            seq![headers[0]] + rest
        } else {
            rest
        }
    }
}

/// The inbound rewrite's surviving headers: everything but the hop-by-hop set.
pub open spec fn spec_prune_hop(headers: Seq<(String, String)>) -> Seq<(String, String)> {
    spec_keep_headers(headers, true)
}

/// The response rewrite's surviving headers: everything but `connection`.
pub open spec fn spec_strip_connection(headers: Seq<(String, String)>) -> Seq<(String, String)> {
    spec_keep_headers(headers, false)
}

proof fn lemma_keep_headers_push(headers: Seq<(String, String)>, strip_all_hop: bool, h: (String, String))
    ensures
        spec_keep_headers(headers.push(h), strip_all_hop) == spec_keep_headers(
            headers,
            strip_all_hop,
        ) + (if spec_header_kept(h.0@, strip_all_hop) {
            seq![h]
        } else {
            Seq::<(String, String)>::empty()
        }),
    decreases headers.len(),
{
    let pushed = headers.push(h);
    if headers.len() == 0 {
        assert(pushed[0] == h);
        assert(pushed.drop_first() =~= Seq::<(String, String)>::empty());
        assert(spec_keep_headers(pushed.drop_first(), strip_all_hop) == Seq::<(
            String,
            String,
        )>::empty());
        assert(spec_keep_headers(headers, strip_all_hop) == Seq::<(String, String)>::empty());
        if spec_header_kept(h.0@, strip_all_hop) {
            assert(spec_keep_headers(pushed, strip_all_hop) =~= spec_keep_headers(
                headers,
                strip_all_hop,
            ) + seq![h]);
        } else {
            assert(spec_keep_headers(pushed, strip_all_hop) =~= spec_keep_headers(
                headers,
                strip_all_hop,
            ) + Seq::<(String, String)>::empty());
        }
    } else {
        assert(pushed[0] == headers[0]);
        assert(pushed.drop_first() =~= headers.drop_first().push(h));
        lemma_keep_headers_push(headers.drop_first(), strip_all_hop, h);
        if spec_header_kept(headers[0].0@, strip_all_hop) {
            assert(seq![headers[0]] + (spec_keep_headers(headers.drop_first(), strip_all_hop) + (
            if spec_header_kept(h.0@, strip_all_hop) {
                seq![h]
            } else {
                Seq::<(String, String)>::empty()
            })) =~= (seq![headers[0]] + spec_keep_headers(headers.drop_first(), strip_all_hop)) + (
            if spec_header_kept(h.0@, strip_all_hop) {
                seq![h]
            } else {
                Seq::<(String, String)>::empty()
            }));
        }
    }
}

/// Every surviving header passes the keep test and is one of the originals.
proof fn lemma_keep_headers_members(headers: Seq<(String, String)>, strip_all_hop: bool)
    ensures
        forall|j: int|
            0 <= j < spec_keep_headers(headers, strip_all_hop).len() ==> spec_header_kept(
                (#[trigger] spec_keep_headers(headers, strip_all_hop)[j]).0@,
                strip_all_hop,
            ) && (exists|i: int|
                0 <= i < headers.len() && spec_keep_headers(headers, strip_all_hop)[j]
                    == headers[i]),
    decreases headers.len(),
{
    if headers.len() > 0 {
        lemma_keep_headers_members(headers.drop_first(), strip_all_hop);
        let kept = spec_keep_headers(headers, strip_all_hop);
        let rest = spec_keep_headers(headers.drop_first(), strip_all_hop);
        assert forall|j: int| 0 <= j < kept.len() implies spec_header_kept(
            (#[trigger] kept[j]).0@,
            strip_all_hop,
        ) && (exists|i: int| 0 <= i < headers.len() && kept[j] == headers[i]) by {
            if spec_header_kept(headers[0].0@, strip_all_hop) {
                if j == 0 {
                    assert(kept[j] == headers[0]);
                } else {
                    assert(kept[j] == rest[j - 1]);
                    let i0 = choose|i: int|
                        0 <= i < headers.drop_first().len() && rest[j - 1]
                            == headers.drop_first()[i];
                    assert(kept[j] == headers[i0 + 1]);
                }
            } else {
                assert(kept[j] == rest[j]);
                let i0 = choose|i: int|
                    0 <= i < headers.drop_first().len() && rest[j] == headers.drop_first()[i];
                assert(kept[j] == headers[i0 + 1]);
            }
        }
    }
}

/// The value of the last header named `name` (case-insensitively), if any.
/// The last one is the authoritative one: stamps are appended at the end.
pub open spec fn spec_last_header_value(headers: Seq<(String, String)>, name: Seq<char>) -> Option<
    Seq<char>,
>
    decreases headers.len(),
{
    if headers.len() == 0 {
        None
    } else if spec_name_eq_ci(headers.last().0@, name) {
        Some(headers.last().1@)
    } else {
        spec_last_header_value(headers.drop_last(), name)
    }
}

/// ASCII-case-insensitive equality of two header names.
pub fn header_name_eq_ci(a: &str, b: &str) -> (r: bool)
    ensures
        r == spec_name_eq_ci(a@, b@),
{
    let la = a.unicode_len();
    let lb = b.unicode_len();
    if la != lb {
        return false;
    }
    let mut i: usize = 0;
    while i < la
        invariant
            la == a@.len(),
            lb == b@.len(),
            la == lb,
            i <= la,
            forall|j: int| 0 <= j < i ==> spec_lower_code(#[trigger] a@[j]) == spec_lower_code(
                b@[j],
            ),
        decreases la - i,
    {
        let ca = a.get_char(i) as u32;
        let cb = b.get_char(i) as u32;
        let fa = if 65 <= ca && ca <= 90 {
            ca + 32
        } else {
            ca
        };
        let fb = if 65 <= cb && cb <= 90 {
            cb + 32
        } else {
            cb
        };
        if fa != fb {
            assert(spec_lower_code(a@[i as int]) != spec_lower_code(b@[i as int]));
            return false;
        }
        i = i + 1;
    }
    true
}

/// Whether `name` is in the fixed hop-by-hop set.
pub fn is_hop_by_hop_name(name: &str) -> (r: bool)
    ensures
        r == spec_is_hop_by_hop(name@),
{
    let r = header_name_eq_ci(name, "connection") || header_name_eq_ci(name, "proxy-connection")
        || header_name_eq_ci(name, "keep-alive") || header_name_eq_ci(name, "proxy-authenticate")
        || header_name_eq_ci(name, "proxy-authorization") || header_name_eq_ci(name, "te")
        || header_name_eq_ci(name, "trailer") || header_name_eq_ci(name, "transfer-encoding")
        || header_name_eq_ci(name, "upgrade");
    r
}

/// None of the names this policy stamps is hop-by-hop.
proof fn lemma_stamp_names_not_hop()
    ensures
        !spec_is_hop_by_hop("x-forwarded-for"@),
        !spec_is_hop_by_hop("x-gasket-request-id"@),
        !spec_is_hop_by_hop("x-gasket-mtls-active"@),
        !spec_name_eq_ci("x-gasket-mtls-active"@, "x-gasket-request-id"@),
        spec_name_eq_ci("x-gasket-request-id"@, "x-gasket-request-id"@),
{
    reveal_strlit("connection");
    reveal_strlit("proxy-connection");
    reveal_strlit("keep-alive");
    reveal_strlit("proxy-authenticate");
    reveal_strlit("proxy-authorization");
    reveal_strlit("te");
    reveal_strlit("trailer");
    reveal_strlit("transfer-encoding");
    reveal_strlit("upgrade");
    reveal_strlit("x-forwarded-for");
    reveal_strlit("x-gasket-request-id");
    reveal_strlit("x-gasket-mtls-active");
    assert(!spec_name_eq_ci("x-gasket-request-id"@, "proxy-authorization"@)) by {
        assert(spec_lower_code("x-gasket-request-id"@[0]) == 120);
        assert(spec_lower_code("proxy-authorization"@[0]) == 112);
    }
}

/// The string a boolean prints as.
pub fn bool_str(b: bool) -> (s: &'static str)
    ensures
        s@ == (if b {
            "true"@
        } else {
            "false"@
        }),
{
    if b {
        "true"
    } else {
        "false"
    }
}

/// Relies on uuid::Uuid::new_v4 and its hyphenated `Display` form: 36
/// characters, lowercase hexadecimal digits with hyphens at positions 8,
/// 13, 18 and 23, and the version digit 4 after the second hyphen. The
/// value itself is random; nothing more is assumed.
#[verifier::external_body]
pub fn new_request_id() -> (id: String)
    ensures
        id@.len() == 36,
        id@[8] == '-',
        id@[13] == '-',
        id@[18] == '-',
        id@[23] == '-',
        id@[14] == '4',
        forall|i: int|
            0 <= i < 36 && i != 8 && i != 13 && i != 18 && i != 23 ==> ((48
                <= (#[trigger] id@[i]) as u32 <= 57) || (97 <= id@[i] as u32 <= 102)),
{
    uuid::Uuid::new_v4().to_string()
}

/// Build the headers of the upstream request from the inbound ones:
/// drop the hop-by-hop set, then append `x-forwarded-for` (when the peer
/// address is known), the request identifier, and the mTLS marker.
pub fn build_upstream_headers(
    inbound: &Vec<(String, String)>,
    peer_ip: &Option<String>,
    request_id: &String,
    mtls_enabled: bool,
) -> (out: Vec<(String, String)>)
    ensures
        out@.len() == spec_prune_hop(inbound@).len() + (if peer_ip is Some {
            3int
        } else {
            2int
        }),
        out@.subrange(0, spec_prune_hop(inbound@).len() as int) == spec_prune_hop(inbound@),
        (match peer_ip {
            Some(ip) => {
                &&& out@[spec_prune_hop(inbound@).len() as int].0@ == "x-forwarded-for"@
                &&& out@[spec_prune_hop(inbound@).len() as int].1@ == ip@
            },
            None => true,
        }),
        out@[out@.len() - 2].0@ == "x-gasket-request-id"@,
        out@[out@.len() - 2].1@ == request_id@,
        out@[out@.len() - 1].0@ == "x-gasket-mtls-active"@,
        out@[out@.len() - 1].1@ == (if mtls_enabled {
            "true"@
        } else {
            "false"@
        }),
        forall|j: int| 0 <= j < out@.len() ==> !spec_is_hop_by_hop((#[trigger] out@[j]).0@),
        spec_last_header_value(out@, "x-gasket-request-id"@) == Some(request_id@),
{
    let mut out: Vec<(String, String)> = Vec::new();
    let n = inbound.len();
    let mut i: usize = 0;
    while i < n
        invariant
            i <= n,
            n == inbound@.len(),
            out@ == spec_keep_headers(inbound@.subrange(0, i as int), true),
        decreases n - i,
    {
        proof {
            assert(inbound@.subrange(0, i + 1).drop_last() =~= inbound@.subrange(0, i as int));
            assert(inbound@.subrange(0, i + 1) =~= inbound@.subrange(0, i as int).push(
                inbound@[i as int],
            ));
            lemma_keep_headers_push(inbound@.subrange(0, i as int), true, inbound@[i as int]);
        }
        let name_is_hop = is_hop_by_hop_name(inbound[i].0.as_str());
        if !name_is_hop {
            let pair = (inbound[i].0.clone(), inbound[i].1.clone());
            assert(pair == inbound@[i as int]);
            out.push(pair);
        }
        proof {
            if !spec_header_kept(inbound@[i as int].0@, true) {
                assert(out@ =~= spec_keep_headers(inbound@.subrange(0, i + 1), true));
            }
        }
        i = i + 1;
    }
    proof {
        assert(inbound@.subrange(0, n as int) =~= inbound@);
        lemma_keep_headers_members(inbound@, true);
        lemma_stamp_names_not_hop();
    }
    let ghost kept = spec_prune_hop(inbound@);
    match peer_ip {
        Some(ip) => {
            out.push(("x-forwarded-for".to_owned(), ip.clone()));
        },
        None => {},
    }
    out.push(("x-gasket-request-id".to_owned(), request_id.clone()));
    out.push(("x-gasket-mtls-active".to_owned(), bool_str(mtls_enabled).to_owned()));
    proof {
        assert(out@.subrange(0, kept.len() as int) =~= kept);
        assert(out@.drop_last().last() == out@[out@.len() - 2]);
        assert(out@.last().0@ == "x-gasket-mtls-active"@);
        assert(!spec_name_eq_ci(out@.last().0@, "x-gasket-request-id"@));
        assert(spec_last_header_value(out@, "x-gasket-request-id"@) == spec_last_header_value(
            out@.drop_last(),
            "x-gasket-request-id"@,
        ));
        assert(spec_name_eq_ci(out@.drop_last().last().0@, "x-gasket-request-id"@));
        assert(spec_last_header_value(out@.drop_last(), "x-gasket-request-id"@) == Some(
            out@[out@.len() - 2].1@,
        ));
    }
    out
}

/// Build the headers of the response handed back to the client from the
/// upstream reply's ones: drop `connection`, then append the request
/// identifier that was stamped on the upstream request.
pub fn build_response_headers(upstream: &Vec<(String, String)>, request_id: &String) -> (out: Vec<
    (String, String),
>)
    ensures
        out@.len() == spec_strip_connection(upstream@).len() + 1,
        out@.subrange(0, spec_strip_connection(upstream@).len() as int) == spec_strip_connection(
            upstream@,
        ),
        out@[out@.len() - 1].0@ == "x-gasket-request-id"@,
        out@[out@.len() - 1].1@ == request_id@,
        forall|j: int|
            0 <= j < out@.len() ==> !spec_name_eq_ci((#[trigger] out@[j]).0@, "connection"@),
        spec_last_header_value(out@, "x-gasket-request-id"@) == Some(request_id@),
{
    let mut out: Vec<(String, String)> = Vec::new();
    let n = upstream.len();
    let mut i: usize = 0;
    while i < n
        invariant
            i <= n,
            n == upstream@.len(),
            out@ == spec_keep_headers(upstream@.subrange(0, i as int), false),
        decreases n - i,
    {
        proof {
            assert(upstream@.subrange(0, i + 1) =~= upstream@.subrange(0, i as int).push(
                upstream@[i as int],
            ));
            lemma_keep_headers_push(upstream@.subrange(0, i as int), false, upstream@[i as int]);
        }
        let is_connection = header_name_eq_ci(upstream[i].0.as_str(), "connection");
        if !is_connection {
            let pair = (upstream[i].0.clone(), upstream[i].1.clone());
            assert(pair == upstream@[i as int]);
            out.push(pair);
        }
        proof {
            if !spec_header_kept(upstream@[i as int].0@, false) {
                assert(out@ =~= spec_keep_headers(upstream@.subrange(0, i + 1), false));
            }
        }
        i = i + 1;
    }
    proof {
        assert(upstream@.subrange(0, n as int) =~= upstream@);
        lemma_keep_headers_members(upstream@, false);
        lemma_stamp_names_not_hop();
    }
    let ghost kept = spec_strip_connection(upstream@);
    out.push(("x-gasket-request-id".to_owned(), request_id.clone()));
    proof {
        assert(out@.subrange(0, kept.len() as int) =~= kept);
        assert forall|j: int| 0 <= j < out@.len() implies !spec_name_eq_ci(
            (#[trigger] out@[j]).0@,
            "connection"@,
        ) by {
            if j < kept.len() {
                assert(out@[j] == kept[j]);
            } else {
                assert(out@[j].0@ == "x-gasket-request-id"@);
                assert(!spec_is_hop_by_hop("x-gasket-request-id"@));
            }
        }
    }
    out
}

/// The value of the last header named `name`, case-insensitively, if any.
pub fn last_header_value(headers: &Vec<(String, String)>, name: &str) -> (r: Option<String>)
    ensures
        (match r {
            Some(v) => spec_last_header_value(headers@, name@) == Some(v@),
            None => spec_last_header_value(headers@, name@) is None,
        }),
{
    let mut i: usize = headers.len();
    proof {
        assert(headers@.subrange(0, headers@.len() as int) =~= headers@);
    }
    while i > 0
        invariant
            i <= headers@.len(),
            spec_last_header_value(headers@, name@) == spec_last_header_value(
                headers@.subrange(0, i as int),
                name@,
            ),
        decreases i,
    {
        i = i - 1;
        proof {
            assert(headers@.subrange(0, i + 1).last() == headers@[i as int]);
            assert(headers@.subrange(0, i + 1).drop_last() =~= headers@.subrange(0, i as int));
        }
        if header_name_eq_ci(headers[i].0.as_str(), name) {
            return Some(headers[i].1.clone());
        }
    }
    proof {
        assert(headers@.subrange(0, 0) =~= Seq::<(String, String)>::empty());
    }
    None
}

/// Law: the response carries the same request identifier that was sent
/// upstream. The hypotheses are exactly what the two header builders
/// ensure for one request's identifier.
pub proof fn lemma_request_id_round_trip(
    upstream: Seq<(String, String)>,
    response: Seq<(String, String)>,
    id: Seq<char>,
)
    requires
        spec_last_header_value(upstream, "x-gasket-request-id"@) == Some(id),
        spec_last_header_value(response, "x-gasket-request-id"@) == Some(id),
    ensures
        spec_last_header_value(response, "x-gasket-request-id"@) == spec_last_header_value(
            upstream,
            "x-gasket-request-id"@,
        ),
{
}

/// Law: no hop-by-hop header appears in the final response, provided the
/// upstream reply carried none besides `connection` itself. (An upstream
/// reply that volunteers another hop-by-hop header is copied through: the
/// response rewrite only drops `connection`.)
pub proof fn lemma_response_hygiene(
    upstream: Seq<(String, String)>,
    out: Seq<(String, String)>,
)
    requires
        forall|j: int|
            0 <= j < upstream.len() ==> (!spec_is_hop_by_hop((#[trigger] upstream[j]).0@)
                || spec_name_eq_ci(upstream[j].0@, "connection"@)),
        out.len() == spec_strip_connection(upstream).len() + 1,
        out.subrange(0, spec_strip_connection(upstream).len() as int) == spec_strip_connection(
            upstream,
        ),
        out[out.len() - 1].0@ == "x-gasket-request-id"@,
    ensures
        forall|j: int| 0 <= j < out.len() ==> !spec_is_hop_by_hop((#[trigger] out[j]).0@),
{
    lemma_keep_headers_members(upstream, false);
    lemma_stamp_names_not_hop();
    let kept = spec_strip_connection(upstream);
    assert forall|j: int| 0 <= j < out.len() implies !spec_is_hop_by_hop(
        (#[trigger] out[j]).0@,
    ) by {
        if j < kept.len() {
            assert(out[j] == kept[j]);
            let i0 = choose|i: int| 0 <= i < upstream.len() && kept[j] == upstream[i];
            assert(!spec_name_eq_ci(kept[j].0@, "connection"@));
        }
    }
}

} // verus!
