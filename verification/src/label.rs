//! Relationship-label normalization and validation.
//!
//! Route and line names become relationship labels in the store, and most
//! graph query languages cannot parameterize a relationship type, so the
//! label is the one value interpolated into query text. It is therefore
//! normalized — the literal word "Line" stripped, `&` replaced by "and",
//! trailing spaces trimmed, remaining spaces turned into underscores, ASCII
//! letters upper-cased — and then validated against an allow-list of ASCII
//! letters, digits and underscores. A label that fails the allow-list
//! (including the empty label) is a hard error, never a corrupted query.

use vstd::prelude::*;

use crate::seq_util::lemma_take_all;

verus! {

/// "Line" as a character sequence.
pub open spec fn line_word() -> Seq<char> {
    seq!['L', 'i', 'n', 'e']
}

/// Remove every occurrence of the word "Line", scanning left to right over
/// non-overlapping matches.
pub open spec fn strip_line_word(s: Seq<char>) -> Seq<char>
    decreases s.len(),
{
    if s.len() < 4 {
        s
    } else if s.subrange(0, 4) == line_word() {
        strip_line_word(s.skip(4))
    } else {
        seq![s[0]] + strip_line_word(s.skip(1))
    }
}

/// Replace every `&` by "and".
pub open spec fn amp_to_and(s: Seq<char>) -> Seq<char>
    decreases s.len(),
{
    if s.len() == 0 {
        s
    } else if s[0] == '&' {
        seq!['a', 'n', 'd'] + amp_to_and(s.skip(1))
    } else {
        seq![s[0]] + amp_to_and(s.skip(1))
    }
}

/// Drop trailing spaces.
pub open spec fn trim_trailing_spaces(s: Seq<char>) -> Seq<char>
    decreases s.len(),
{
    if s.len() > 0 && s.last() == ' ' {
        trim_trailing_spaces(s.drop_last())
    } else {
        s
    }
}

/// A space becomes an underscore; everything else is kept.
pub open spec fn underscore_char(c: char) -> char {
    if c == ' ' {
        '_'
    } else {
        c
    }
}

/// Upper-case an ASCII letter; other characters are kept. Non-ASCII
/// letters are left unchanged and fail the allow-list check later.
pub open spec fn upper_char(c: char) -> char {
    if 97 <= c as u32 && c as u32 <= 122 {
        (((c as u32) - 32) as u8) as char
    } else {
        c
    }
}

/// The normalized label of a raw route or line name.
pub open spec fn clean_label_spec(s: Seq<char>) -> Seq<char> {
    trim_trailing_spaces(amp_to_and(strip_line_word(s))).map_values(
        |c: char| upper_char(underscore_char(c)),
    )
}

/// A character the label allow-list accepts: ASCII letters, digits, and
/// the underscore.
pub open spec fn is_label_char(c: char) -> bool {
    ||| 48 <= c as u32 && c as u32 <= 57
    ||| 65 <= c as u32 && c as u32 <= 90
    ||| 97 <= c as u32 && c as u32 <= 122
    ||| c == '_'
}

/// A label fit for interpolation: non-empty and made of allowed
/// characters only.
pub open spec fn spec_valid_label(s: Seq<char>) -> bool {
    s.len() > 0 && forall|i: int| 0 <= i < s.len() ==> is_label_char(#[trigger] s[i])
}

/// Collect the characters of a string slice.
fn chars_of(s: &str) -> (r: Vec<char>)
    ensures
        r@ == s@,
{
    let n = s.unicode_len();
    let mut r: Vec<char> = Vec::new();
    let mut i: usize = 0;
    while i < n
        invariant
            n == s@.len(),
            i <= n,
            r@ == s@.take(i as int),
        decreases n - i,
    {
        proof {
            s@.lemma_take_succ_push(i as int);
        }
        r.push(s.get_char(i));
        i += 1;
    }
    proof {
        lemma_take_all(s@);
    }
    r
}

/// Relies on std's `String::push`: appends the given character to the end
/// of the string.
#[verifier::external_body]
fn push_char(s: &mut String, c: char)
    ensures
        final (s)@ == old(s)@.push(c),
{
    s.push(c);
}

/// Build a `String` from a character vector.
fn string_of_chars(v: &Vec<char>) -> (r: String)
    ensures
        r@ == v@,
{
    let n = v.len();
    let mut r = String::new();
    let mut i: usize = 0;
    while i < n
        invariant
            n == v@.len(),
            i <= n,
            r@ == v@.take(i as int),
        decreases n - i,
    {
        proof {
            v@.lemma_take_succ_push(i as int);
        }
        push_char(&mut r, v[i]);
        i += 1;
    }
    proof {
        lemma_take_all(v@);
    }
    r
}

/// Remove every occurrence of "Line", left to right.
fn strip_line_pass(v: &Vec<char>) -> (r: Vec<char>)
    ensures
        r@ == strip_line_word(v@),
{
    let n = v.len();
    let mut out: Vec<char> = Vec::new();
    let mut i: usize = 0;
    proof {
        assert(v@.skip(0) =~= v@);
        assert(Seq::<char>::empty() + strip_line_word(v@) =~= strip_line_word(v@));
    }
    while i < n
        invariant
            n == v@.len(),
            i <= n,
            strip_line_word(v@) == out@ + strip_line_word(v@.skip(i as int)),
        decreases n - i,
    {
        let ghost rem = v@.skip(i as int);
        proof {
            assert(rem.len() == n - i);
            assert forall|k: int| 0 <= k < rem.len() implies rem[k] == v@[i + k] by {}
        }
        if n - i >= 4 && v[i] == 'L' && v[i + 1] == 'i' && v[i + 2] == 'n' && v[i + 3] == 'e' {
            proof {
                assert(rem.subrange(0, 4) =~= line_word());
                assert(rem.skip(4) =~= v@.skip(i as int + 4));
                assert(strip_line_word(rem) == strip_line_word(v@.skip(i as int + 4)));
            }
            i += 4;
        } else {
            proof {
                if rem.len() >= 4 {
                    assert(rem.subrange(0, 4) != line_word()) by {
                        if rem.subrange(0, 4) == line_word() {
                            assert(rem.subrange(0, 4)[0] == rem[0]);
                            assert(rem.subrange(0, 4)[1] == rem[1]);
                            assert(rem.subrange(0, 4)[2] == rem[2]);
                            assert(rem.subrange(0, 4)[3] == rem[3]);
                            assert(v@[i as int] == 'L' && v@[i as int + 1] == 'i' && v@[i as int
                                + 2] == 'n' && v@[i as int + 3] == 'e');
                        }
                    }
                    assert(strip_line_word(rem) == seq![rem[0]] + strip_line_word(rem.skip(1)));
                } else {
                    assert(strip_line_word(rem) == rem);
                    assert(strip_line_word(rem.skip(1)) == rem.skip(1));
                    assert(rem =~= seq![rem[0]] + rem.skip(1));
                }
                assert(rem.skip(1) =~= v@.skip(i as int + 1));
                assert(out@ + strip_line_word(rem) =~= (out@ + seq![rem[0]]) + strip_line_word(
                    rem.skip(1),
                ));
                assert(out@.push(v@[i as int]) =~= out@ + seq![rem[0]]);
            }
            out.push(v[i]);
            i += 1;
        }
    }
    proof {
        assert(v@.skip(n as int) =~= Seq::<char>::empty());
        assert(strip_line_word(Seq::<char>::empty()) == Seq::<char>::empty());
        assert(out@ + Seq::<char>::empty() =~= out@);
    }
    out
}

/// Replace every `&` by "and".
fn amp_pass(v: &Vec<char>) -> (r: Vec<char>)
    ensures
        r@ == amp_to_and(v@),
{
    let n = v.len();
    let mut out: Vec<char> = Vec::new();
    let mut i: usize = 0;
    proof {
        assert(v@.skip(0) =~= v@);
        assert(Seq::<char>::empty() + amp_to_and(v@) =~= amp_to_and(v@));
    }
    while i < n
        invariant
            n == v@.len(),
            i <= n,
            amp_to_and(v@) == out@ + amp_to_and(v@.skip(i as int)),
        decreases n - i,
    {
        let ghost rem = v@.skip(i as int);
        proof {
            assert(rem[0] == v@[i as int]);
            assert(rem.skip(1) =~= v@.skip(i as int + 1));
        }
        if v[i] == '&' {
            proof {
                assert(amp_to_and(rem) == seq!['a', 'n', 'd'] + amp_to_and(rem.skip(1)));
                assert(out@ + amp_to_and(rem) =~= ((out@.push('a').push('n').push('d'))
                    + amp_to_and(rem.skip(1))));
            }
            out.push('a');
            out.push('n');
            out.push('d');
        } else {
            proof {
                assert(amp_to_and(rem) == seq![rem[0]] + amp_to_and(rem.skip(1)));
                assert(out@ + amp_to_and(rem) =~= (out@.push(v@[i as int]) + amp_to_and(
                    rem.skip(1),
                )));
            }
            out.push(v[i]);
        }
        i += 1;
    }
    proof {
        assert(v@.skip(n as int) =~= Seq::<char>::empty());
        assert(out@ + amp_to_and(Seq::<char>::empty()) =~= out@);
    }
    out
}

/// Drop trailing spaces.
fn trim_pass(v: Vec<char>) -> (r: Vec<char>)
    ensures
        r@ == trim_trailing_spaces(v@),
{
    let mut v = v;
    let ghost full = v@;
    loop
        invariant
            trim_trailing_spaces(full) == trim_trailing_spaces(v@),
        ensures
            trim_trailing_spaces(full) == v@,
        decreases v@.len(),
    {
        let len = v.len();
        if len == 0 {
            break ;
        }
        if v[len - 1] != ' ' {
            break ;
        }
        v.pop();
    }
    v
}

/// Turn spaces into underscores and upper-case ASCII letters.
fn finish_pass(v: &Vec<char>) -> (r: Vec<char>)
    ensures
        r@ == v@.map_values(|c: char| upper_char(underscore_char(c))),
{
    let n = v.len();
    let mut out: Vec<char> = Vec::new();
    let mut i: usize = 0;
    while i < n
        invariant
            n == v@.len(),
            i <= n,
            out@.len() == i,
            forall|j: int|
                0 <= j < i ==> out@[j] == upper_char(underscore_char(#[trigger] v@[j])),
        decreases n - i,
    {
        let c = v[i];
        let mapped: char = if c == ' ' {
            '_'
        } else {
            let u = c as u32;
            if 97 <= u && u <= 122 {
                ((u - 32) as u8) as char
            } else {
                c
            }
        };
        assert(mapped == upper_char(underscore_char(v@[i as int])));
        out.push(mapped);
        i += 1;
    }
    proof {
        assert(out@ =~= v@.map_values(|c: char| upper_char(underscore_char(c))));
    }
    out
}

/// Normalize a raw route or line name into a relationship label.
pub fn clean_label(s: &str) -> (r: String)
    ensures
        r@ == clean_label_spec(s@),
{
    let chars = chars_of(s);
    let stripped = strip_line_pass(&chars);
    let anded = amp_pass(&stripped);
    let trimmed = trim_pass(anded);
    let finished = finish_pass(&trimmed);
    string_of_chars(&finished)
}

/// Check a label against the allow-list.
pub fn is_valid_label(s: &String) -> (r: bool)
    ensures
        r == spec_valid_label(s@),
{
    let slice = s.as_str();
    let n = slice.unicode_len();
    if n == 0 {
        return false;
    }
    let mut i: usize = 0;
    while i < n
        invariant
            n == slice@.len(),
            slice@ == s@,
            i <= n,
            forall|j: int| 0 <= j < i ==> is_label_char(#[trigger] slice@[j]),
        decreases n - i,
    {
        let c = slice.get_char(i);
        let u = c as u32;
        let ok = (48 <= u && u <= 57) || (65 <= u && u <= 90) || (97 <= u && u <= 122) || c == '_';
        if !ok {
            assert(!is_label_char(s@[i as int]));
            return false;
        }
        i += 1;
    }
    true
}

} // verus!
