//! Characters, lines and the line-oriented shape of the canonical text.
//!
//! The canonical message layout is a sequence of lines joined by a single
//! `'\n'`; these helpers give that shape a specification: `split_lines` and
//! `join_lines` are exact inverses on line sequences whose lines hold no
//! delimiter.
use vstd::prelude::*;
use vstd::string::*;

verus! {

/// True when no character of `s` is the line delimiter.
pub open spec fn no_nl(s: Seq<char>) -> bool {
    forall|i: int| 0 <= i < s.len() ==> s[i] != '\n'
}

/// The lines of `s`: maximal runs of characters between `'\n'` delimiters.
/// The empty text has one empty line; a trailing `'\n'` yields a final empty line.
pub open spec fn split_lines(s: Seq<char>) -> Seq<Seq<char>>
    decreases s.len(),
{
    if s.len() == 0 {
        seq![Seq::<char>::empty()]
    } else if s[0] == '\n' {
        seq![Seq::<char>::empty()] + split_lines(s.skip(1))
    } else {
        let rest = split_lines(s.skip(1));
        seq![seq![s[0]] + rest[0]] + rest.skip(1)
    }
}

/// The text whose lines are `ls`, joined by single `'\n'` delimiters.
pub open spec fn join_lines(ls: Seq<Seq<char>>) -> Seq<char>
    decreases ls.len(),
{
    if ls.len() == 0 {
        Seq::<char>::empty()
    } else if ls.len() == 1 {
        ls[0]
    } else {
        ls[0] + seq!['\n'] + join_lines(ls.skip(1))
    }
}

pub proof fn lemma_split_lines_nonempty(s: Seq<char>)
    ensures
        split_lines(s).len() >= 1,
    decreases s.len(),
{
    if s.len() == 0 {
    } else if s[0] == '\n' {
    } else {
        lemma_split_lines_nonempty(s.skip(1));
    }
}

/// A text without delimiters is a single line.
pub proof fn lemma_split_no_nl(s: Seq<char>)
    requires
        no_nl(s),
    ensures
        split_lines(s) == seq![s],
    decreases s.len(),
{
    if s.len() == 0 {
        assert(split_lines(s) =~~= seq![s]);
    } else {
        assert(no_nl(s.skip(1)));
        lemma_split_no_nl(s.skip(1));
        let rest = split_lines(s.skip(1));
        assert(rest == seq![s.skip(1)]);
        assert(rest[0] == s.skip(1));
        assert(rest.skip(1) =~= Seq::<Seq<char>>::empty());
        assert(seq![s[0]] + rest[0] =~= s);
        assert(split_lines(s) =~= seq![s]);
    }
}

/// Splitting `a + '\n' + b` peels off the delimiter-free line `a`.
pub proof fn lemma_split_append(a: Seq<char>, b: Seq<char>)
    requires
        no_nl(a),
    ensures
        split_lines(a + seq!['\n'] + b) == seq![a] + split_lines(b),
    decreases a.len(),
{
    let s = a + seq!['\n'] + b;
    if a.len() == 0 {
        assert(s[0] == '\n');
        assert(s.skip(1) =~= b);
        assert(split_lines(s) =~~= seq![a] + split_lines(b));
    } else {
        assert(s[0] == a[0]);
        assert(s[0] != '\n');
        let a2 = a.skip(1);
        assert(no_nl(a2));
        lemma_split_append(a2, b);
        assert(s.skip(1) =~= a2 + seq!['\n'] + b);
        let rest = split_lines(s.skip(1));
        assert(rest == seq![a2] + split_lines(b));
        lemma_split_lines_nonempty(b);
        assert(rest[0] == a2);
        assert(seq![s[0]] + rest[0] =~= a);
        assert(rest.skip(1) =~= split_lines(b));
        assert(split_lines(s) =~= seq![a] + split_lines(b));
    }
}

/// Joining and then splitting gives the lines back, when no line holds a delimiter.
pub proof fn lemma_split_join(ls: Seq<Seq<char>>)
    requires
        ls.len() >= 1,
        forall|i: int| 0 <= i < ls.len() ==> no_nl(#[trigger] ls[i]),
    ensures
        split_lines(join_lines(ls)) == ls,
    decreases ls.len(),
{
    if ls.len() == 1 {
        lemma_split_no_nl(ls[0]);
        assert(split_lines(join_lines(ls)) =~= ls);
    } else {
        let tail = ls.skip(1);
        assert(forall|i: int| 0 <= i < tail.len() ==> no_nl(#[trigger] tail[i]));
        lemma_split_join(tail);
        lemma_split_append(ls[0], join_lines(tail));
        assert(split_lines(join_lines(ls)) =~= seq![ls[0]] + tail);
        assert(seq![ls[0]] + tail =~= ls);
    }
}

/// Appending one more line to a joined text.
pub proof fn lemma_join_push(ls: Seq<Seq<char>>, x: Seq<char>)
    requires
        ls.len() >= 1,
    ensures
        join_lines(ls.push(x)) == join_lines(ls) + seq!['\n'] + x,
    decreases ls.len(),
{
    if ls.len() == 1 {
        let p = ls.push(x);
        assert(p.len() == 2);
        let q = p.skip(1);
        assert(q =~= seq![x]);
        assert(join_lines(seq![x]) == x);
        assert(join_lines(p) == p[0] + seq!['\n'] + join_lines(q));
        assert(p[0] == ls[0]);
        assert(join_lines(p) =~= ls[0] + seq!['\n'] + x);
    } else {
        lemma_join_push(ls.skip(1), x);
        assert(ls.push(x).skip(1) =~= ls.skip(1).push(x));
        assert(join_lines(ls.push(x)) =~= join_lines(ls) + seq!['\n'] + x);
    }
}

/// True when `v` holds no line delimiter.
pub fn no_nl_exec(v: &Vec<char>) -> (r: bool)
    ensures
        r == no_nl(v@),
{
    let mut i: usize = 0;
    while i < v.len()
        invariant
            i <= v@.len(),
            forall|k: int| 0 <= k < i ==> v@[k] != '\n',
        decreases v@.len() - i,
    {
        if v[i] == '\n' {
            return false;
        }
        i = i + 1;
    }
    true
}

/// True when `p` is a prefix of `s`.
pub open spec fn starts_with(s: Seq<char>, p: Seq<char>) -> bool {
    p.len() <= s.len() && s.take(p.len() as int) == p
}

/// True when `p` is a suffix of `s`.
pub open spec fn ends_with(s: Seq<char>, p: Seq<char>) -> bool {
    p.len() <= s.len() && s.skip((s.len() - p.len()) as int) == p
}

/// The characters of `s`, in order, as a vector.
pub fn str_chars(s: &str) -> (r: Vec<char>)
    ensures
        r@ == s@,
{
    let n: usize = s.unicode_len();
    let mut r: Vec<char> = Vec::new();
    let mut i: usize = 0;
    while i < n
        invariant
            i <= n,
            n == s@.len(),
            r@ == s@.take(i as int),
        decreases n - i,
    {
        let c = s.get_char(i);
        r.push(c);
        proof {
            assert(s@.take(i + 1 as int) =~= s@.take(i as int).push(s@[i as int]));
        }
        i = i + 1;
    }
    proof {
        assert(r@ =~= s@);
    }
    r
}

/// Relies on `String`'s `FromIterator` over characters: collecting the
/// characters of `v` yields the string whose characters are exactly `v`.
#[verifier::external_body]
pub fn chars_to_string(v: &Vec<char>) -> (r: String)
    ensures
        r@ == v@,
{
    v.iter().collect()
}

/// Appends the characters of `tag` to `buf`.
pub fn push_str_chars(buf: &mut Vec<char>, tag: &str)
    ensures
        final(buf)@ == old(buf)@ + tag@,
{
    let n: usize = tag.unicode_len();
    let mut i: usize = 0;
    while i < n
        invariant
            i <= n,
            n == tag@.len(),
            buf@ == old(buf)@ + tag@.take(i as int),
        decreases n - i,
    {
        let c = tag.get_char(i);
        buf.push(c);
        proof {
            assert(tag@.take(i + 1 as int) =~= tag@.take(i as int).push(tag@[i as int]));
            assert(old(buf)@ + tag@.take(i + 1 as int) =~= (old(buf)@ + tag@.take(i as int)).push(
                tag@[i as int],
            ));
        }
        i = i + 1;
    }
    proof {
        assert(tag@.take(n as int) =~= tag@);
    }
}

/// Splits `t` into its lines.
pub fn split_lines_exec(t: &Vec<char>) -> (r: Vec<Vec<char>>)
    ensures
        r.deep_view() == split_lines(t@),
        r.len() >= 1,
{
    let mut r: Vec<Vec<char>> = Vec::new();
    let mut cur: Vec<char> = Vec::new();
    let mut i: usize = 0;
    proof {
        assert(cur@ + t@.skip(0) =~= t@);
        assert(r.deep_view() =~= Seq::<Seq<char>>::empty());
        assert(Seq::<Seq<char>>::empty() + split_lines(t@) =~= split_lines(t@));
    }
    while i < t.len()
        invariant
            i <= t.len(),
            no_nl(cur@),
            split_lines(t@) == r.deep_view() + split_lines(cur@ + t@.skip(i as int)),
        decreases t.len() - i,
    {
        let c = t[i];
        if c == '\n' {
            let ghost prev = r.deep_view();
            let ghost done_line = cur@;
            proof {
                assert(cur@ + t@.skip(i as int) =~= cur@ + seq!['\n'] + t@.skip(i + 1 as int));
                lemma_split_append(cur@, t@.skip(i + 1 as int));
            }
            let done = cur;
            r.push(done);
            cur = Vec::new();
            proof {
                assert(r.deep_view() =~~= prev + seq![done_line]);
                assert((prev + seq![done_line]) + split_lines(t@.skip(i + 1 as int)) =~= prev + (
                seq![done_line] + split_lines(t@.skip(i + 1 as int))));
                assert(cur@ + t@.skip(i + 1 as int) =~= t@.skip(i + 1 as int));
            }
        } else {
            let ghost oc = cur@;
            cur.push(c);
            proof {
                assert(cur@ =~= oc + seq![c]);
                assert((oc + seq![c]) + t@.skip(i + 1 as int) =~= oc + t@.skip(i as int));
            }
        }
        i = i + 1;
    }
    let ghost prev = r.deep_view();
    let ghost done_line = cur@;
    proof {
        assert(cur@ + t@.skip(i as int) =~= cur@);
        lemma_split_no_nl(cur@);
    }
    r.push(cur);
    proof {
        assert(r.deep_view() =~~= prev + seq![done_line]);
        assert(prev + seq![done_line] =~= prev + split_lines(done_line));
        lemma_split_lines_nonempty(t@);
    }
    r
}

/// Joins lines with single `'\n'` delimiters.
pub fn join_lines_exec(ls: &Vec<Vec<char>>) -> (r: Vec<char>)
    requires
        ls.len() >= 1,
    ensures
        r@ == join_lines(ls.deep_view()),
{
    let mut r: Vec<char> = Vec::new();
    let mut i: usize = 0;
    while i < ls.len()
        invariant
            i <= ls.len(),
            ls.len() >= 1,
            i == 0 ==> r@ == Seq::<char>::empty(),
            i >= 1 ==> r@ == join_lines(ls.deep_view().take(i as int)),
        decreases ls.len() - i,
    {
        if i > 0 {
            r.push('\n');
        }
        let mut j: usize = 0;
        let ghost base = r@;
        while j < ls[i].len()
            invariant
                j <= ls@[i as int].len(),
                i < ls.len(),
                r@ == base + ls@[i as int]@.take(j as int),
            decreases ls@[i as int].len() - j,
        {
            let c = ls[i][j];
            r.push(c);
            proof {
                assert(ls@[i as int]@.take(j + 1 as int) =~= ls@[i as int]@.take(j as int).push(
                    ls@[i as int]@[j as int],
                ));
                assert(base + ls@[i as int]@.take(j + 1 as int) =~= (base + ls@[i as int]@.take(
                    j as int,
                )).push(ls@[i as int]@[j as int]));
            }
            j = j + 1;
        }
        proof {
            assert(ls@[i as int]@.take(ls@[i as int]@.len() as int) =~= ls@[i as int]@);
            let dv = ls.deep_view();
            assert(dv[i as int] =~= ls@[i as int]@);
            if i == 0 {
                assert(dv.take(1) =~= seq![dv[0]]);
                assert(join_lines(dv.take(1)) == dv[0]);
                assert(r@ =~= dv[0]);
            } else {
                assert(dv.take(i + 1 as int) =~= dv.take(i as int).push(dv[i as int]));
                lemma_join_push(dv.take(i as int), dv[i as int]);
                assert(r@ =~= join_lines(dv.take(i as int)) + seq!['\n'] + dv[i as int]);
            }
        }
        i = i + 1;
    }
    proof {
        assert(ls.deep_view().take(ls.len() as int) =~= ls.deep_view());
    }
    r
}

/// True when `line` begins with the characters of `tag`.
pub fn starts_with_tag(line: &Vec<char>, tag: &str) -> (r: bool)
    ensures
        r == starts_with(line@, tag@),
{
    let tn: usize = tag.unicode_len();
    if tn > line.len() {
        return false;
    }
    let mut i: usize = 0;
    while i < tn
        invariant
            i <= tn,
            tn == tag@.len(),
            tn <= line@.len(),
            forall|j: int| 0 <= j < i ==> line@[j] == tag@[j],
        decreases tn - i,
    {
        if line[i] != tag.get_char(i) {
            proof {
                assert(line@.take(tn as int)[i as int] != tag@[i as int]);
            }
            return false;
        }
        i = i + 1;
    }
    proof {
        assert(line@.take(tn as int) =~= tag@);
    }
    true
}

/// True when `line` ends with the characters of `tag`.
pub fn ends_with_tag(line: &Vec<char>, tag: &str) -> (r: bool)
    ensures
        r == ends_with(line@, tag@),
{
    let tn: usize = tag.unicode_len();
    if tn > line.len() {
        return false;
    }
    let off: usize = line.len() - tn;
    let mut i: usize = 0;
    while i < tn
        invariant
            i <= tn,
            tn == tag@.len(),
            tn <= line@.len(),
            line@.len() <= usize::MAX,
            off == line@.len() - tn,
            forall|j: int| 0 <= j < i ==> line@[off + j] == tag@[j],
        decreases tn - i,
    {
        let k: usize = off + i;
        if line[k] != tag.get_char(i) {
            proof {
                assert(line@.skip(off as int)[i as int] != tag@[i as int]);
            }
            return false;
        }
        i = i + 1;
    }
    proof {
        assert(line@.skip(off as int) =~= tag@);
    }
    true
}

/// The characters of `line` from `from` (inclusive) to `to` (exclusive).
pub fn sub_chars(line: &Vec<char>, from: usize, to: usize) -> (r: Vec<char>)
    requires
        from <= to <= line@.len(),
    ensures
        r@ == line@.subrange(from as int, to as int),
{
    let mut r: Vec<char> = Vec::new();
    let mut i: usize = from;
    while i < to
        invariant
            from <= i <= to <= line@.len(),
            r@ == line@.subrange(from as int, i as int),
        decreases to - i,
    {
        let c = line[i];
        r.push(c);
        proof {
            assert(line@.subrange(from as int, i + 1 as int) =~= line@.subrange(
                from as int,
                i as int,
            ).push(line@[i as int]));
        }
        i = i + 1;
    }
    r
}

} // verus!
