//! Character sequences: conversions to and from `String`, and substring
//! replacement.

use vstd::prelude::*;

verus! {

/// Relies on `str::chars` collected into a `Vec`: the characters of `s` in order.
#[verifier::external_body]
pub fn chars_of(s: &str) -> (r: Vec<char>)
    ensures
        r@ == s@,
{
    s.chars().collect()
}

/// Relies on collecting `char`s into a `String`: the string of exactly those characters.
#[verifier::external_body]
pub fn string_of(v: &Vec<char>) -> (r: String)
    ensures
        r@ == v@,
{
    v.iter().collect()
}

/// `s` with every non-overlapping occurrence of `p`, taken from the left,
/// replaced by `t`. An empty `p` matches before each character and at the end.
pub open spec fn replaced(s: Seq<char>, p: Seq<char>, t: Seq<char>) -> Seq<char>
    decreases s.len(),
{
    if p.len() == 0 {
        if s.len() == 0 {
            t
        } else {
            t + seq![s[0]] + replaced(s.drop_first(), p, t)
        }
    } else if s.len() < p.len() {
        s
    } else if s.take(p.len() as int) == p {
        t + replaced(s.skip(p.len() as int), p, t)
    } else {
        seq![s[0]] + replaced(s.drop_first(), p, t)
    }
}

/// Whether `p` occurs in `s` starting at index `i`.
pub open spec fn occurs_at(s: Seq<char>, p: Seq<char>, i: int) -> bool {
    0 <= i && i + p.len() <= s.len() && s.subrange(i, i + p.len()) == p
}

fn matches_at(s: &Vec<char>, p: &Vec<char>, i: usize) -> (r: bool)
    requires
        i + p.len() <= s.len(),
    ensures
        r == (s@.skip(i as int).take(p.len() as int) == p@),
{
    let mut k: usize = 0;
    while k < p.len()
        invariant
            k <= p.len(),
            i + p.len() <= s.len(),
            forall|j: int| 0 <= j < k ==> s@[i + j] == p@[j],
        decreases p.len() - k,
    {
        if s[i + k] != p[k] {
            assert(s@.skip(i as int).take(p.len() as int)[k as int] != p@[k as int]);
            return false;
        }
        k += 1;
    }
    assert(s@.skip(i as int).take(p.len() as int) =~= p@);
    true
}

/// Replaces every occurrence of `from` in `text` by `to`, as `str::replace` does.
pub fn replace_all(text: &Vec<char>, from: &Vec<char>, to: &Vec<char>) -> (r: Vec<char>)
    ensures
        r@ == replaced(text@, from@, to@),
{
    let mut out: Vec<char> = Vec::new();
    let mut i: usize = 0;
    assert(text@.skip(0) =~= text@);
    assert(out@ + replaced(text@, from@, to@) =~= replaced(text@, from@, to@));
    if from.len() == 0 {
        while i < text.len()
            invariant
                i <= text.len(),
                from@.len() == 0,
                out@ + replaced(text@.skip(i as int), from@, to@) == replaced(text@, from@, to@),
            decreases text.len() - i,
        {
            let ghost rest = text@.skip(i as int);
            assert(rest.drop_first() =~= text@.skip(i + 1));
            out.extend_from_slice(to.as_slice());
            out.push(text[i]);
            i += 1;
            assert(out@ + replaced(text@.skip(i as int), from@, to@) =~= replaced(text@, from@, to@));
        }
        assert(text@.skip(i as int).len() == 0);
        out.extend_from_slice(to.as_slice());
        return out;
    }
    while from.len() <= text.len() - i
        invariant
            i <= text.len(),
            from@.len() > 0,
            out@ + replaced(text@.skip(i as int), from@, to@) == replaced(text@, from@, to@),
        decreases text.len() - i,
    {
        let ghost rest = text@.skip(i as int);
        if matches_at(text, from, i) {
            assert(rest.skip(from.len() as int) =~= text@.skip(i + from.len()));
            out.extend_from_slice(to.as_slice());
            i += from.len();
        } else {
            assert(rest.drop_first() =~= text@.skip(i + 1));
            out.push(text[i]);
            i += 1;
        }
        assert(out@ + replaced(text@.skip(i as int), from@, to@) =~= replaced(text@, from@, to@));
    }
    let ghost tail = text@.skip(i as int);
    assert(replaced(tail, from@, to@) == tail);
    while i < text.len()
        invariant
            i <= text.len(),
            out@ + text@.skip(i as int) == replaced(text@, from@, to@),
        decreases text.len() - i,
    {
        out.push(text[i]);
        i += 1;
        assert(out@ + text@.skip(i as int) =~= replaced(text@, from@, to@));
    }
    assert(text@.skip(i as int) =~= Seq::<char>::empty());
    assert(out@ =~= replaced(text@, from@, to@));
    out
}

/// A text in which the pattern never occurs comes back unchanged from
/// replacement: only occurrences of the pattern are ever rewritten.
pub proof fn lemma_replace_without_occurrence(s: Seq<char>, p: Seq<char>, t: Seq<char>)
    requires
        p.len() > 0,
        forall|i: int| !occurs_at(s, p, i),
    ensures
        replaced(s, p, t) == s,
    decreases s.len(),
{
    if s.len() >= p.len() {
        assert(s.take(p.len() as int) != p) by {
            assert(s.subrange(0, p.len() as int) =~= s.take(p.len() as int));
            assert(!occurs_at(s, p, 0));
        }
        let r = s.drop_first();
        assert forall|i: int| !occurs_at(r, p, i) by {
            if occurs_at(r, p, i) {
                assert(s.subrange(i + 1, i + 1 + p.len()) =~= r.subrange(i, i + p.len()));
                assert(occurs_at(s, p, i + 1));
            }
        }
        lemma_replace_without_occurrence(r, p, t);
        assert(seq![s[0]] + r =~= s);
    }
}

/// Replacing a non-empty pattern by itself gives back the text unchanged.
pub proof fn lemma_replace_by_itself(s: Seq<char>, p: Seq<char>)
    requires
        p.len() > 0,
    ensures
        replaced(s, p, p) == s,
    decreases s.len(),
{
    if s.len() >= p.len() {
        if s.take(p.len() as int) == p {
            lemma_replace_by_itself(s.skip(p.len() as int), p);
            assert(s.take(p.len() as int) + s.skip(p.len() as int) =~= s);
        } else {
            lemma_replace_by_itself(s.drop_first(), p);
            assert(seq![s[0]] + s.drop_first() =~= s);
        }
    }
}

} // verus!
