//! Reader for the LOADACS lump: an input that is nothing but
//! whitespace-separated ASCII words, with no grammar beyond the splitting.

use vstd::prelude::*;
use vstd::string::StrSliceExecFns;

verus! {

/// Whether a character counts as whitespace for word splitting.
pub uninterp spec fn is_unicode_ws(c: char) -> bool;

/// Relies on `char::is_whitespace`: whether the character has the Unicode
/// whitespace property, a function of the character alone.
#[verifier::external_body]
fn char_is_ws(c: char) -> (r: bool)
    ensures
        r == is_unicode_ws(c),
{
    c.is_whitespace()
}

/// Relies on `String`'s `FromIterator` over `char`: collecting characters
/// yields the string of exactly those characters.
#[verifier::external_body]
fn chars_to_string(v: &Vec<char>) -> (r: String)
    ensures
        r@ == v@,
{
    v.iter().collect()
}

/// The pieces of `s` from position `i` on, cut at every whitespace character,
/// with `cur` the piece accumulated so far and `acc` the pieces already cut.
pub open spec fn split_ws_from(s: Seq<char>, i: int, cur: Seq<char>, acc: Seq<Seq<char>>) -> Seq<
    Seq<char>,
>
    decreases s.len() - i,
{
    if 0 <= i < s.len() {
        if is_unicode_ws(s[i]) {
            split_ws_from(s, i + 1, Seq::empty(), acc.push(cur))
        } else {
            split_ws_from(s, i + 1, cur.push(s[i]), acc)
        }
    } else {
        acc.push(cur)
    }
}

/// The whitespace-separated pieces of `s`: one piece between every two
/// adjacent whitespace characters, including the empty pieces at either end
/// and between consecutive whitespace characters.
pub open spec fn split_ws(s: Seq<char>) -> Seq<Seq<char>> {
    split_ws_from(s, 0, Seq::empty(), Seq::empty())
}

/// The texts of a sequence of strings.
pub open spec fn strings_view(v: Seq<String>) -> Seq<Seq<char>> {
    v.map(|x: int, o: String| o@)
}

/// A LOADACS lump: a list of bytecode object file names for a host to load.
pub struct LoadAcs {
    pub objects: Vec<String>,
}

impl LoadAcs {
    /// Break the input into its whitespace-separated pieces, empty pieces at
    /// the ends and between consecutive whitespace characters included.
    pub fn parse(string: &str) -> (r: Self)
        ensures
            strings_view(r.objects@) == split_ws(string@),
    {
        let n = string.unicode_len();
        let mut objects: Vec<String> = Vec::new();
        let mut cur: Vec<char> = Vec::new();
        let mut i: usize = 0;
        proof {
            assert(strings_view(objects@) =~= Seq::<Seq<char>>::empty());
            assert(cur@ =~= Seq::<char>::empty());
        }
        while i < n
            invariant
                n == string@.len(),
                i <= n,
                split_ws(string@) == split_ws_from(string@, i as int, cur@, strings_view(objects@)),
            decreases n - i,
        {
            let c = string.get_char(i);
            if char_is_ws(c) {
                let ghost prev = strings_view(objects@);
                let w = chars_to_string(&cur);
                objects.push(w);
                cur = Vec::new();
                proof {
                    assert(strings_view(objects@) =~= prev.push(w@));
                    assert(cur@ =~= Seq::<char>::empty());
                }
            } else {
                cur.push(c);
            }
            i = i + 1;
        }
        let ghost prev = strings_view(objects@);
        let w = chars_to_string(&cur);
        objects.push(w);
        proof {
            assert(strings_view(objects@) =~= prev.push(w@));
        }
        LoadAcs { objects }
    }
}

} // verus!
