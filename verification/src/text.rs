//! Comma-separated name lists.
//!
//! A resolution request names its VDBs in one string, separated by `','` with
//! no trimming: `n` commas give `n + 1` tokens, so an empty input or an empty
//! segment gives an empty token.  [`spec_split`] says what the tokens are;
//! [`split_commas`] computes them.

use vstd::prelude::*;
use vstd::std_specs::iter::IteratorSpec;

verus! {

broadcast use {vstd::string::next_postcondition, vstd::string::group_string_axioms};

/// The comma-separated tokens of `s`, in order.
pub open spec fn spec_split(s: Seq<char>) -> Seq<Seq<char>>
    decreases s.len(),
{
    if s.len() == 0 {
        seq![Seq::<char>::empty()]
    } else if s[0] == ',' {
        seq![Seq::<char>::empty()] + spec_split(s.subrange(1, s.len() as int))
    } else {
        let rest = spec_split(s.subrange(1, s.len() as int));
        seq![seq![s[0]] + rest[0]] + rest.subrange(1, rest.len() as int)
    }
}

/// Splitting yields at least one token.
pub proof fn lemma_split_nonempty(s: Seq<char>)
    ensures
        spec_split(s).len() >= 1,
    decreases s.len(),
{
    if s.len() != 0 {
        lemma_split_nonempty(s.subrange(1, s.len() as int));
    }
}

/// How one more character extends the tokens: a comma opens a new empty token,
/// any other character is appended to the last token.
pub proof fn lemma_split_push(s: Seq<char>, c: char)
    ensures
        c == ',' ==> spec_split(s.push(c)) == spec_split(s).push(Seq::<char>::empty()),
        c != ',' ==> spec_split(s.push(c)) == spec_split(s).update(
            spec_split(s).len() - 1,
            spec_split(s).last().push(c),
        ),
    decreases s.len(),
{
    reveal_with_fuel(spec_split, 3);
    lemma_split_nonempty(s);
    let sp = s.push(c);
    if s.len() == 0 {
        assert(s =~= Seq::<char>::empty());
        assert(sp.subrange(1, sp.len() as int) =~= Seq::<char>::empty());
        if c == ',' {
            assert(spec_split(sp) =~~= spec_split(s).push(Seq::<char>::empty()));
        } else {
            assert(seq![c] + Seq::<char>::empty() =~= seq![c]);
            assert(spec_split(sp) =~~= spec_split(s).update(
                spec_split(s).len() - 1,
                spec_split(s).last().push(c),
            ));
        }
    } else {
        let t = s.subrange(1, s.len() as int);
        lemma_split_nonempty(t);
        lemma_split_push(t, c);
        let st = spec_split(t);
        assert(sp[0] == s[0]);
        assert(sp.subrange(1, sp.len() as int) =~= t.push(c));
        if s[0] == ',' {
            if c == ',' {
                assert(spec_split(sp) =~~= spec_split(s).push(Seq::<char>::empty()));
            } else {
                assert((seq![Seq::<char>::empty()] + st).last() == st.last());
                assert(spec_split(sp) =~~= spec_split(s).update(
                    spec_split(s).len() - 1,
                    spec_split(s).last().push(c),
                ));
            }
        } else {
            let stp = spec_split(t.push(c));
            if c == ',' {
                assert(stp[0] == st[0]);
                assert(spec_split(sp) =~~= spec_split(s).push(Seq::<char>::empty()));
            } else {
                if st.len() == 1 {
                    assert(stp[0] == st[0].push(c));
                    assert((seq![s[0]] + st[0]).push(c) =~= seq![s[0]] + st[0].push(c));
                    assert(spec_split(s).last() == seq![s[0]] + st[0]);
                    assert(spec_split(sp) =~~= spec_split(s).update(
                        spec_split(s).len() - 1,
                        spec_split(s).last().push(c),
                    ));
                } else {
                    assert(stp[0] == st[0]);
                    assert(spec_split(s).last() == st.last());
                    assert(spec_split(sp) =~~= spec_split(s).update(
                        spec_split(s).len() - 1,
                        spec_split(s).last().push(c),
                    ));
                }
            }
        }
    }
}

/// The characters of `s`, in order.
pub(crate) fn to_chars(s: &str) -> (v: Vec<char>)
    ensures
        v@ == s@,
{
    let mut it = s.chars();
    let mut v: Vec<char> = Vec::new();
    loop
        invariant
            v@ + it.remaining() == s@,
        ensures
            v@ == s@,
        decreases s@.len() - v@.len(),
    {
        match it.next() {
            Some(c) => {
                v.push(c);
                proof {
                    assert(v@ + it.remaining() =~= s@);
                }
            },
            None => {
                proof {
                    assert(v@ =~= s@);
                }
                break ;
            },
        }
    }
    v
}

/// Relies on `String`'s `FromIterator<char>` implementation: collecting
/// characters builds the string of exactly those characters.
#[verifier::external_body]
fn string_from_chars(v: &Vec<char>) -> (s: String)
    ensures
        s@ == v@,
{
    v.iter().collect()
}

/// Splits `s` on every comma, with no trimming.
pub fn split_commas(s: &str) -> (tokens: Vec<String>)
    ensures
        tokens.deep_view() == spec_split(s@),
{
    let chars = to_chars(s);
    let mut tokens: Vec<String> = Vec::new();
    let mut cur: Vec<char> = Vec::new();
    let mut i: usize = 0;
    proof {
        assert(s@.subrange(0, 0) =~= Seq::<char>::empty());
        assert(spec_split(s@.subrange(0, 0)) =~~= tokens.deep_view() + seq![cur@]);
    }
    while i < chars.len()
        invariant
            i <= chars@.len(),
            chars@ == s@,
            spec_split(s@.subrange(0, i as int)) == tokens.deep_view() + seq![cur@],
        decreases chars@.len() - i,
    {
        let c = chars[i];
        let ghost prefix = s@.subrange(0, i as int);
        proof {
            lemma_split_push(prefix, c);
            lemma_split_nonempty(prefix);
            assert(prefix.push(c) =~= s@.subrange(0, i as int + 1));
        }
        if c == ',' {
            let ghost dv = tokens.deep_view();
            let ghost done = cur@;
            let token = string_from_chars(&cur);
            tokens.push(token);
            cur = Vec::new();
            proof {
                assert(tokens.deep_view() =~~= dv.push(done));
                assert(spec_split(s@.subrange(0, i as int + 1)) =~~= tokens.deep_view() + seq![
                    cur@,
                ]);
            }
        } else {
            let ghost dv = tokens.deep_view();
            let ghost before = cur@;
            cur.push(c);
            proof {
                assert((dv + seq![before]).last() == before);
                assert(spec_split(s@.subrange(0, i as int + 1)) =~~= tokens.deep_view() + seq![
                    cur@,
                ]);
            }
        }
        i += 1;
    }
    let ghost dv = tokens.deep_view();
    let ghost done = cur@;
    let token = string_from_chars(&cur);
    tokens.push(token);
    proof {
        assert(s@.subrange(0, s@.len() as int) =~= s@);
        assert(tokens.deep_view() =~~= dv.push(done));
        assert(tokens.deep_view() =~~= spec_split(s@));
    }
    tokens
}

} // verus!
