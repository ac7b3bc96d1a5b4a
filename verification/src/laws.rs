//! The laws of the grammar: a serializable message's canonical text parses
//! back to the same message (up to address checksumming), and parsing is
//! indifferent to the casing in which the address was written.
use vstd::prelude::*;

use crate::address::{addr_bytes, eip55_of, lemma_eip55_ok};
use crate::grammar::{
    bullet, chain_tag, exp_tag, iat_tag, msg_lines, nbf_tag, nonce_tag, opt_line, parse_lines,
    parse_optionals, parse_resources, parse_text, preamble, render, res_lines, res_tag, rid_tag,
    stmt_lines, tag_val, uri_tag, validate, version_tag, ParseError, RawMsg,
};
use crate::hexnum::{dec_of, is_dec_digit, is_dec_u64, lemma_dec_of_props};
use crate::model::{serializable, MsgView};
use crate::text::{ends_with, lemma_split_join, no_nl, split_lines, starts_with};

verus! {

/// Concrete shape of the fixed tags: their lengths, absence of delimiters,
/// and the characters that tell the optional tags apart.
pub proof fn lemma_tags()
    ensures
        preamble().len() == 49,
        uri_tag().len() == 5,
        version_tag().len() == 9,
        chain_tag().len() == 10,
        nonce_tag().len() == 7,
        iat_tag().len() == 11,
        exp_tag().len() == 17,
        nbf_tag().len() == 12,
        rid_tag().len() == 12,
        res_tag().len() == 10,
        bullet().len() == 2,
        no_nl(preamble()),
        no_nl(uri_tag()),
        no_nl(version_tag()),
        no_nl(chain_tag()),
        no_nl(nonce_tag()),
        no_nl(iat_tag()),
        no_nl(exp_tag()),
        no_nl(nbf_tag()),
        no_nl(rid_tag()),
        no_nl(res_tag()),
        no_nl(bullet()),
        exp_tag()[0] == 'E',
        nbf_tag()[0] == 'N',
        rid_tag()[0] == 'R',
        res_tag()[0] == 'R',
        rid_tag()[2] == 'q',
        res_tag()[2] == 's',
{
    reveal_strlit(" wants you to sign in with your Ethereum account:");
    reveal_strlit("URI: ");
    reveal_strlit("Version: ");
    reveal_strlit("Chain ID: ");
    reveal_strlit("Nonce: ");
    reveal_strlit("Issued At: ");
    reveal_strlit("Expiration Time: ");
    reveal_strlit("Not Before: ");
    reveal_strlit("Request ID: ");
    reveal_strlit("Resources:");
    reveal_strlit("- ");
    assert(preamble() =~= seq![
        ' ', 'w', 'a', 'n', 't', 's', ' ', 'y', 'o', 'u', ' ', 't', 'o', ' ', 's', 'i', 'g', 'n',
        ' ', 'i', 'n', ' ', 'w', 'i', 't', 'h', ' ', 'y', 'o', 'u', 'r', ' ', 'E', 't', 'h', 'e',
        'r', 'e', 'u', 'm', ' ', 'a', 'c', 'c', 'o', 'u', 'n', 't', ':',
    ]);
    assert(uri_tag() =~= seq!['U', 'R', 'I', ':', ' ']);
    assert(version_tag() =~= seq!['V', 'e', 'r', 's', 'i', 'o', 'n', ':', ' ']);
    assert(chain_tag() =~= seq!['C', 'h', 'a', 'i', 'n', ' ', 'I', 'D', ':', ' ']);
    assert(nonce_tag() =~= seq!['N', 'o', 'n', 'c', 'e', ':', ' ']);
    assert(iat_tag() =~= seq!['I', 's', 's', 'u', 'e', 'd', ' ', 'A', 't', ':', ' ']);
    assert(exp_tag() =~= seq![
        'E', 'x', 'p', 'i', 'r', 'a', 't', 'i', 'o', 'n', ' ', 'T', 'i', 'm', 'e', ':', ' ',
    ]);
    assert(nbf_tag() =~= seq!['N', 'o', 't', ' ', 'B', 'e', 'f', 'o', 'r', 'e', ':', ' ']);
    assert(rid_tag() =~= seq!['R', 'e', 'q', 'u', 'e', 's', 't', ' ', 'I', 'D', ':', ' ']);
    assert(res_tag() =~= seq!['R', 'e', 's', 'o', 'u', 'r', 'c', 'e', 's', ':']);
    assert(bullet() =~= seq!['-', ' ']);
}

/// A line that differs from the tag at a position inside both cannot start
/// with the tag.
pub proof fn lemma_not_starts(line: Seq<char>, tag: Seq<char>, i: int)
    requires
        0 <= i < tag.len(),
        i < line.len(),
        line[i] != tag[i],
    ensures
        !starts_with(line, tag),
{
    if starts_with(line, tag) {
        assert(line.take(tag.len() as int)[i] == line[i]);
    }
}

/// A tagged line starts with its tag, and stripping the tag gives the value.
pub proof fn lemma_tagged(tag: Seq<char>, v: Seq<char>)
    ensures
        starts_with(tag + v, tag),
        tag_val(tag + v, tag) == v,
{
    assert((tag + v).take(tag.len() as int) =~= tag);
    assert((tag + v).skip(tag.len() as int) =~= v);
}

/// Delimiter-freedom of a concatenation.
pub proof fn lemma_no_nl_concat(a: Seq<char>, b: Seq<char>)
    requires
        no_nl(a),
        no_nl(b),
    ensures
        no_nl(a + b),
{
    assert forall|i: int| 0 <= i < (a + b).len() implies (a + b)[i] != '\n' by {
        if i < a.len() {
            assert((a + b)[i] == a[i]);
        } else {
            assert((a + b)[i] == b[i - a.len()]);
        }
    }
}

/// Exactly bulleted lines parse back to their values.
pub proof fn lemma_parse_res(ls: Seq<Seq<char>>, j: int, rs: Seq<Seq<char>>)
    requires
        0 <= j <= ls.len(),
        ls.len() - j == rs.len(),
        forall|w: int| 0 <= w < rs.len() ==> ls[j + w] == bullet() + #[trigger] rs[w],
    ensures
        parse_resources(ls, j) == Ok::<Seq<Seq<char>>, ParseError>(rs),
    decreases rs.len(),
{
    lemma_tags();
    if rs.len() == 0 {
        assert(rs =~= Seq::<Seq<char>>::empty());
    } else {
        assert(ls[j + 0] == bullet() + rs[0]);
        lemma_tagged(bullet(), rs[0]);
        lemma_parse_res(ls, j + 1, rs.skip(1));
        assert(seq![tag_val(ls[j], bullet())] + rs.skip(1) =~= rs);
    }
}

/// The optional tail of a rendered message parses back to its fields.
#[verifier::rlimit(100)]
pub proof fn lemma_parse_optionals_render(
    ls: Seq<Seq<char>>,
    j: int,
    e: Option<Seq<char>>,
    nb: Option<Seq<char>>,
    ri: Option<Seq<char>>,
    rs: Seq<Seq<char>>,
)
    requires
        0 <= j <= ls.len(),
        ls.skip(j) == opt_line(exp_tag(), e) + opt_line(nbf_tag(), nb) + opt_line(rid_tag(), ri)
            + res_lines(rs),
    ensures
        parse_optionals(ls, j) == Ok::<
            (Option<Seq<char>>, Option<Seq<char>>, Option<Seq<char>>, Seq<Seq<char>>),
            ParseError,
        >((e, nb, ri, rs)),
{
    lemma_tags();
    let t = ls.skip(j);
    let a = opt_line(exp_tag(), e);
    let b = opt_line(nbf_tag(), nb);
    let c = opt_line(rid_tag(), ri);
    let d = res_lines(rs);
    assert(forall|w: int| 0 <= w < t.len() ==> #[trigger] t[w] == ls[j + w]);
    // The head line of each stage either carries the stage's tag or
    // provably does not start with it.
    if e is Some {
        assert(t[0] == a[0]);
        lemma_tagged(exp_tag(), e->0);
        assert(starts_with(ls[j], exp_tag()));
        assert(tag_val(ls[j], exp_tag()) == e->0);
    } else {
        assert(a.len() == 0);
        if j < ls.len() {
            assert(t[0] == (b + c + d)[0]);
            if nb is Some {
                assert(t[0] == nbf_tag() + nb->0);
                lemma_not_starts(ls[j], exp_tag(), 0);
            } else if ri is Some {
                assert(t[0] == rid_tag() + ri->0);
                lemma_not_starts(ls[j], exp_tag(), 0);
            } else if rs.len() > 0 {
                assert(t[0] == res_tag());
                lemma_not_starts(ls[j], exp_tag(), 0);
            } else {
                assert(t.len() == 0);
            }
        }
    }
    let j1 = if e is Some { j + 1 } else { j };
    let o1 = (if e is Some { 1int } else { 0int });
    assert(ls.skip(j1) =~~= b + c + d) by {
        assert(forall|w: int| 0 <= w < ls.len() - j1 ==> #[trigger] ls.skip(j1)[w] == t[w + o1]);
    }
    let t1 = ls.skip(j1);
    if nb is Some {
        assert(t1[0] == b[0]);
        lemma_tagged(nbf_tag(), nb->0);
        assert(starts_with(ls[j1], nbf_tag()));
        assert(tag_val(ls[j1], nbf_tag()) == nb->0);
    } else {
        assert(b.len() == 0);
        if j1 < ls.len() {
            assert(t1[0] == (c + d)[0]);
            if ri is Some {
                assert(t1[0] == rid_tag() + ri->0);
                lemma_not_starts(ls[j1], nbf_tag(), 0);
            } else if rs.len() > 0 {
                assert(t1[0] == res_tag());
                lemma_not_starts(ls[j1], nbf_tag(), 0);
            } else {
                assert(t1.len() == 0);
            }
        }
    }
    let j2 = if nb is Some { j1 + 1 } else { j1 };
    let o2 = (if nb is Some { 1int } else { 0int });
    assert(ls.skip(j2) =~~= c + d) by {
        assert(forall|w: int| 0 <= w < ls.len() - j2 ==> #[trigger] ls.skip(j2)[w] == t1[w + o2]);
    }
    let t2 = ls.skip(j2);
    if ri is Some {
        assert(t2[0] == c[0]);
        lemma_tagged(rid_tag(), ri->0);
        assert(starts_with(ls[j2], rid_tag()));
        assert(tag_val(ls[j2], rid_tag()) == ri->0);
    } else {
        assert(c.len() == 0);
        if j2 < ls.len() {
            assert(t2[0] == d[0]);
            if rs.len() > 0 {
                assert(t2[0] == res_tag());
                lemma_not_starts(ls[j2], rid_tag(), 2);
            } else {
                assert(t2.len() == 0);
            }
        }
    }
    let j3 = if ri is Some { j2 + 1 } else { j2 };
    let o3 = (if ri is Some { 1int } else { 0int });
    assert(ls.skip(j3) =~~= d) by {
        assert(forall|w: int| 0 <= w < ls.len() - j3 ==> #[trigger] ls.skip(j3)[w] == t2[w + o3]);
    }
    let t3 = ls.skip(j3);
    if rs.len() == 0 {
        assert(d.len() == 0);
        assert(j3 >= ls.len());
        assert(rs =~= Seq::<Seq<char>>::empty());
    } else {
        assert(t3[0] == d[0]);
        assert(d[0] == res_tag());
        assert(ls[j3] == res_tag());
        assert(j3 < ls.len());
        let bl = rs.map_values(|r: Seq<char>| bullet() + r);
        assert forall|w: int| 0 <= w < rs.len() implies ls[(j3 + 1) + w] == bullet()
            + #[trigger] rs[w] by {
            assert(t3[1 + w] == d[1 + w]);
            assert(d[1 + w] == bl[w]);
        }
        assert(ls.len() - (j3 + 1) == rs.len());
        lemma_parse_res(ls, j3 + 1, rs);
    }
}

/// The raw fields that rendering a serializable message produces.
pub open spec fn raw_of(v: MsgView) -> RawMsg {
    RawMsg {
        domain: v.domain,
        address: eip55_of(addr_bytes(v.address)),
        statement: v.statement,
        uri: v.uri,
        version: v.version,
        chain: dec_of(v.chain_id as nat),
        nonce: v.nonce,
        issued_at: v.issued_at,
        expiration_time: v.expiration_time,
        not_before: v.not_before,
        request_id: v.request_id,
        resources: v.resources,
    }
}

/// The message with its address re-cased to the checksummed rendering; the
/// rest is unchanged.
pub open spec fn normal_of(v: MsgView) -> MsgView {
    MsgView { address: eip55_of(addr_bytes(v.address)), ..v }
}

/// Every line of a serializable message's rendering is delimiter-free.
pub proof fn lemma_msg_lines_no_nl(v: MsgView)
    requires
        serializable(v),
    ensures
        forall|i: int| 0 <= i < msg_lines(v).len() ==> no_nl(#[trigger] msg_lines(v)[i]),
{
    lemma_tags();
    lemma_eip55_ok(addr_bytes(v.address));
    lemma_dec_of_props(v.chain_id as nat);
    let digits = dec_of(v.chain_id as nat);
    assert(no_nl(digits)) by {
        assert forall|i: int| 0 <= i < digits.len() implies digits[i] != '\n' by {
            assert(is_dec_digit(digits[i]));
        }
    }
    lemma_no_nl_concat(v.domain, preamble());
    lemma_no_nl_concat(uri_tag(), v.uri);
    lemma_no_nl_concat(version_tag(), v.version);
    lemma_no_nl_concat(chain_tag(), digits);
    lemma_no_nl_concat(nonce_tag(), v.nonce);
    lemma_no_nl_concat(iat_tag(), v.issued_at);
    match v.statement {
        Some(s) => {},
        None => {},
    }
    match v.expiration_time {
        Some(s) => {
            lemma_no_nl_concat(exp_tag(), s);
        },
        None => {},
    }
    match v.not_before {
        Some(s) => {
            lemma_no_nl_concat(nbf_tag(), s);
        },
        None => {},
    }
    match v.request_id {
        Some(s) => {
            lemma_no_nl_concat(rid_tag(), s);
        },
        None => {},
    }
    let bl = v.resources.map_values(|r: Seq<char>| bullet() + r);
    assert forall|w: int| 0 <= w < bl.len() implies no_nl(#[trigger] bl[w]) by {
        lemma_no_nl_concat(bullet(), v.resources[w]);
    }
    assert forall|i: int| 0 <= i < msg_lines(v).len() implies no_nl(#[trigger] msg_lines(v)[i]) by {
        let ls = msg_lines(v);
        let head = seq![
            v.domain + preamble(),
            eip55_of(addr_bytes(v.address)),
            Seq::<char>::empty(),
        ];
        let mid = seq![
            Seq::<char>::empty(),
            uri_tag() + v.uri,
            version_tag() + v.version,
            chain_tag() + digits,
            nonce_tag() + v.nonce,
            iat_tag() + v.issued_at,
        ];
        assert(ls == head + stmt_lines(v.statement) + mid + opt_line(exp_tag(), v.expiration_time)
            + opt_line(nbf_tag(), v.not_before) + opt_line(rid_tag(), v.request_id) + res_lines(
            v.resources,
        ));
    }
}

/// The lines of a serializable message's rendering parse back to its raw
/// fields.
#[verifier::rlimit(100)]
pub proof fn lemma_parse_lines_render(v: MsgView)
    requires
        serializable(v),
    ensures
        parse_lines(msg_lines(v)) == Ok::<RawMsg, ParseError>(raw_of(v)),
{
    lemma_tags();
    lemma_eip55_ok(addr_bytes(v.address));
    let ls = msg_lines(v);
    let digits = dec_of(v.chain_id as nat);
    lemma_dec_of_props(v.chain_id as nat);
    let k: int = if v.statement is Some {
        5
    } else {
        4
    };
    // Pin each line of the fixed part.
    assert(ls[0] == v.domain + preamble());
    assert(ls[1] == eip55_of(addr_bytes(v.address)));
    assert(ls[2] =~= Seq::<char>::empty());
    if v.statement is Some {
        assert(ls[3] == v.statement->0);
        assert(ls[4] =~= Seq::<char>::empty());
    } else {
        assert(ls[3] =~= Seq::<char>::empty());
    }
    assert(ls[k] == uri_tag() + v.uri);
    assert(ls[k + 1] == version_tag() + v.version);
    assert(ls[k + 2] == chain_tag() + digits);
    assert(ls[k + 3] == nonce_tag() + v.nonce);
    assert(ls[k + 4] == iat_tag() + v.issued_at);
    // Preamble line.
    assert(ends_with(ls[0], preamble())) by {
        assert((v.domain + preamble()).skip(v.domain.len() as int) =~= preamble());
    }
    assert(ls[0].take(ls[0].len() - preamble().len()) =~= v.domain);
    // Tagged lines.
    lemma_tagged(uri_tag(), v.uri);
    lemma_tagged(version_tag(), v.version);
    lemma_tagged(chain_tag(), digits);
    lemma_tagged(nonce_tag(), v.nonce);
    lemma_tagged(iat_tag(), v.issued_at);
    // The optional tail.
    assert(ls.skip(k + 5) =~~= opt_line(exp_tag(), v.expiration_time) + opt_line(
        nbf_tag(),
        v.not_before,
    ) + opt_line(rid_tag(), v.request_id) + res_lines(v.resources));
    lemma_parse_optionals_render(
        ls,
        k + 5,
        v.expiration_time,
        v.not_before,
        v.request_id,
        v.resources,
    );
    match v.statement {
        Some(s) => {
            assert(s.len() > 0);
        },
        None => {},
    }
    assert(parse_lines(ls) == Ok::<RawMsg, ParseError>(raw_of(v)));
}

/// Validation accepts the raw fields of a serializable rendering and yields
/// the message with its address checksummed.
pub proof fn lemma_validate_raw(v: MsgView)
    requires
        serializable(v),
    ensures
        validate(raw_of(v)) == Ok::<MsgView, ParseError>(normal_of(v)),
{
    lemma_eip55_ok(addr_bytes(v.address));
    lemma_dec_of_props(v.chain_id as nat);
    assert(is_dec_u64(dec_of(v.chain_id as nat)));
    assert(validate(raw_of(v)) == Ok::<MsgView, ParseError>(normal_of(v)));
}

/// Round-trip law: the canonical text of any serializable message parses
/// back successfully; the result is the same message with its address
/// re-cased to the checksummed form, it is itself serializable, and it
/// renders to the very same text. Serializing, parsing and serializing again
/// is therefore the identity on canonical texts.
pub proof fn lemma_round_trip(v: MsgView)
    requires
        serializable(v),
    ensures
        parse_text(render(v)) == Ok::<MsgView, ParseError>(normal_of(v)),
        serializable(normal_of(v)),
        render(normal_of(v)) == render(v),
{
    lemma_msg_lines_no_nl(v);
    lemma_split_join(msg_lines(v));
    lemma_parse_lines_render(v);
    lemma_validate_raw(v);
    lemma_eip55_ok(addr_bytes(v.address));
    let n = normal_of(v);
    assert(addr_bytes(n.address) == addr_bytes(v.address));
    assert(serializable(n));
    assert(msg_lines(n) =~~= msg_lines(v));
}

/// Checksum normalization: two raw messages that differ only in the casing
/// of the address (they denote the same twenty bytes) validate to the very
/// same message; in particular their canonical renderings are identical.
pub proof fn lemma_checksum_normalization(r1: RawMsg, r2: RawMsg)
    requires
        addr_bytes(r1.address) == addr_bytes(r2.address),
        r2 == (RawMsg { address: r2.address, ..r1 }),
    ensures
        validate(r1) == validate(r2),
{
}

} // verus!
