//! Parsing of shell-like git command strings into argv elements, and the
//! exact command strings the git driver runs.  A double-quoted group of
//! words becomes a single element; an opened quote that never closes is a
//! parse error.

use vstd::prelude::*;

use crate::errors::RegistryError;
use crate::hashes::push_char;

verus! {

/// Whether the char has the Unicode `White_Space` property, the set
/// `char::is_whitespace` accepts.
pub open spec fn spec_is_ws(c: char) -> bool {
    ||| (0x09 <= c as u32 <= 0x0d)
    ||| c as u32 == 0x20
    ||| c as u32 == 0x85
    ||| c as u32 == 0xa0
    ||| c as u32 == 0x1680
    ||| (0x2000 <= c as u32 <= 0x200a)
    ||| c as u32 == 0x2028
    ||| c as u32 == 0x2029
    ||| c as u32 == 0x202f
    ||| c as u32 == 0x205f
    ||| c as u32 == 0x3000
}

fn is_ws(c: char) -> (r: bool)
    ensures
        r == spec_is_ws(c),
{
    let n = c as u32;
    (0x09 <= n && n <= 0x0d) || n == 0x20 || n == 0x85 || n == 0xa0 || n == 0x1680 || (0x2000 <= n
        && n <= 0x200a) || n == 0x2028 || n == 0x2029 || n == 0x202f || n == 0x205f || n == 0x3000
}

/// The maximal whitespace-free words of `s`, after the pending word `cur`.
pub open spec fn spec_split_ws_from(cur: Seq<char>, s: Seq<char>) -> Seq<Seq<char>>
    decreases s.len(),
{
    if s.len() == 0 {
        if cur.len() == 0 {
            Seq::empty()
        } else {
            seq![cur]
        }
    } else if spec_is_ws(s[0]) {
        (if cur.len() == 0 {
            Seq::<Seq<char>>::empty()
        } else {
            seq![cur]
        }) + spec_split_ws_from(Seq::empty(), s.drop_first())
    } else {
        spec_split_ws_from(cur.push(s[0]), s.drop_first())
    }
}

/// The maximal whitespace-free words of `s`, in order: what
/// `str::split_whitespace` yields.
pub open spec fn spec_split_ws(s: Seq<char>) -> Seq<Seq<char>> {
    spec_split_ws_from(Seq::empty(), s)
}

/// Splits a string on whitespace into its words.
fn split_ws(s: &str) -> (tokens: Vec<String>)
    ensures
        tokens.deep_view() == spec_split_ws(s@),
{
    let mut done: Vec<String> = Vec::new();
    let mut cur = String::new();
    let len = s.unicode_len();
    let mut i: usize = 0;
    proof {
        assert(s@.skip(0) =~= s@);
    }
    while i < len
        invariant
            len == s@.len(),
            i <= len,
            spec_split_ws(s@) =~= done.deep_view() + spec_split_ws_from(cur@, s@.skip(i as int)),
        decreases len - i,
    {
        let c = s.get_char(i);
        let ghost suffix = s@.skip(i as int);
        let ghost rest = s@.skip(i + 1);
        proof {
            assert(suffix.len() > 0);
            assert(suffix[0] == c);
            assert(suffix.drop_first() =~= rest);
        }
        if is_ws(c) {
            if cur.unicode_len() > 0 {
                proof {
                    assert(spec_split_ws_from(cur@, suffix) =~= seq![cur@] + spec_split_ws_from(
                        Seq::empty(),
                        rest,
                    ));
                }
                let ghost old_done = done.deep_view();
                done.push(cur);
                proof {
                    assert(done.deep_view() =~~= old_done.push(cur@));
                    assert(old_done + (seq![cur@] + spec_split_ws_from(Seq::empty(), rest))
                        =~= done.deep_view() + spec_split_ws_from(Seq::empty(), rest));
                }
                cur = String::new();
            } else {
                proof {
                    assert(cur@ =~= Seq::<char>::empty());
                    assert(spec_split_ws_from(cur@, suffix) =~= Seq::<Seq<char>>::empty()
                        + spec_split_ws_from(Seq::empty(), rest));
                    assert(Seq::<Seq<char>>::empty() + spec_split_ws_from(Seq::empty(), rest)
                        =~= spec_split_ws_from(Seq::empty(), rest));
                    assert(spec_split_ws_from(cur@, suffix) == spec_split_ws_from(cur@, rest));
                }
            }
        } else {
            proof {
                assert(spec_split_ws_from(cur@, suffix) == spec_split_ws_from(cur@.push(c), rest));
            }
            push_char(&mut cur, c);
        }
        i = i + 1;
    }
    proof {
        assert(s@.skip(len as int) =~= Seq::<char>::empty());
    }
    if cur.unicode_len() > 0 {
        let ghost old_done = done.deep_view();
        done.push(cur);
        proof {
            assert(done.deep_view() =~~= old_done.push(cur@));
        }
    }
    proof {
        assert(done.deep_view() =~= spec_split_ws(s@));
    }
    done
}

/// The grouping of the remaining words under a pending quote: words that
/// open with a double quote start a group, the word that ends with one
/// closes it, and a group still open at the end is an error.
pub open spec fn spec_convert_from(
    tokens: Seq<Seq<char>>,
    quote: Seq<char>,
    in_quote: bool,
) -> Option<Seq<Seq<char>>>
    decreases tokens.len(),
{
    if tokens.len() == 0 {
        if in_quote {
            None
        } else {
            Some(Seq::empty())
        }
    } else {
        let t = tokens[0];
        if t.len() > 0 && t[0] == '"' {
            spec_convert_from(tokens.drop_first(), t, true)
        } else if in_quote {
            let q = quote + seq![' '] + t;
            if t.len() > 0 && t[t.len() - 1] == '"' {
                match spec_convert_from(tokens.drop_first(), q, false) {
                    Some(r) => Some(seq![q] + r),
                    None => None,
                }
            } else {
                spec_convert_from(tokens.drop_first(), q, true)
            }
        } else {
            match spec_convert_from(tokens.drop_first(), quote, false) {
                Some(r) => Some(seq![t] + r),
                None => None,
            }
        }
    }
}

/// The argv elements of a shell-like command string, or `None` when a
/// quote opens and never closes.
pub open spec fn spec_convert_args(s: Seq<char>) -> Option<Seq<Seq<char>>> {
    spec_convert_from(spec_split_ws(s), Seq::empty(), false)
}

/// Splits a command string into argv elements, keeping a double-quoted
/// group of words as one element (quotes included).  An unterminated
/// quote is an error.
pub fn convert_args(args: &str) -> (r: Result<Vec<String>, RegistryError>)
    ensures
        match r {
            Ok(v) => spec_convert_args(args@) == Some(v.deep_view()),
            Err(e) => spec_convert_args(args@) is None && e == RegistryError::InvalidRequest,
        },
{
    let tokens = split_ws(args);
    let ghost all = tokens.deep_view();
    let mut fixed: Vec<String> = Vec::new();
    let mut quote = String::new();
    let mut in_quote = false;
    let len = tokens.len();
    let mut i: usize = 0;
    proof {
        assert(all.skip(0) =~= all);
    }
    while i < len
        invariant
            len == tokens@.len(),
            all == tokens.deep_view(),
            all.len() == len,
            i <= len,
            match spec_convert_from(all.skip(i as int), quote@, in_quote) {
                Some(rest) => spec_convert_args(args@) == Some(fixed.deep_view() + rest),
                None => spec_convert_args(args@) is None,
            },
        decreases len - i,
    {
        let t = &tokens[i];
        let tlen = t.unicode_len();
        let ghost tv = tokens@[i as int]@;
        let ghost suffix = all.skip(i as int);
        let ghost rest = all.skip(i + 1);
        proof {
            assert(suffix.len() > 0);
            assert(suffix[0] == tv);
            assert(suffix.drop_first() =~= rest);
        }
        if tlen > 0 && t.as_str().get_char(0) == '"' {
            quote = t.clone();
            in_quote = true;
        } else if in_quote {
            let ghost old_quote = quote@;
            push_char(&mut quote, ' ');
            quote.append(t.as_str());
            let ghost q = old_quote + seq![' '] + tv;
            proof {
                assert(quote@ =~= q);
            }
            if tlen > 0 && t.as_str().get_char(tlen - 1) == '"' {
                proof {
                    assert(spec_convert_from(suffix, old_quote, true) == (
                    match spec_convert_from(rest, q, false) {
                        Some(r) => Some(seq![q] + r),
                        None => None,
                    }));
                }
                let ghost old_fixed = fixed.deep_view();
                fixed.push(quote.clone());
                proof {
                    assert(fixed.deep_view() =~~= old_fixed.push(quote@));
                    if spec_convert_from(rest, q, false) is Some {
                        let r = spec_convert_from(rest, q, false)->Some_0;
                        assert(old_fixed + (seq![q] + r) =~= fixed.deep_view() + r);
                    }
                }
                in_quote = false;
            }
        } else {
            proof {
                assert(spec_convert_from(suffix, quote@, false) == (
                match spec_convert_from(rest, quote@, false) {
                    Some(r) => Some(seq![tv] + r),
                    None => None,
                }));
            }
            let ghost old_fixed = fixed.deep_view();
            fixed.push(t.clone());
            proof {
                assert(fixed.deep_view() =~~= old_fixed.push(tv));
                if spec_convert_from(rest, quote@, false) is Some {
                    let r = spec_convert_from(rest, quote@, false)->Some_0;
                    assert(old_fixed + (seq![tv] + r) =~= fixed.deep_view() + r);
                }
            }
        }
        i = i + 1;
    }
    proof {
        assert(all.skip(len as int) =~= Seq::<Seq<char>>::empty());
    }
    if in_quote {
        return Err(RegistryError::InvalidRequest);
    }
    proof {
        assert(fixed.deep_view() + Seq::<Seq<char>>::empty() =~= fixed.deep_view());
    }
    Ok(fixed)
}

} // verus!
