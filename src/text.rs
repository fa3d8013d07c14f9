use vstd::prelude::*;
use vstd::string::StrSliceExecFns;
use vstd::string::StringExecFns;
use crate::column::texts;

verus! {

/// `c` with ASCII lower-case letters moved to upper case; every other character unchanged.
pub open spec fn ascii_upper(c: char) -> char {
    if 'a' <= c && c <= 'z' {
        ((c as u32) - 32) as char
    } else {
        c
    }
}

/// `s` with its first character upper-cased by ASCII rules; the empty text stays empty.
pub open spec fn capitalized(s: Seq<char>) -> Seq<char> {
    if s.len() == 0 {
        s
    } else {
        s.update(0, ascii_upper(s[0]))
    }
}

/// Relies on char::to_ascii_uppercase: letters 'a'..='z' map to 'A'..='Z', every other
/// character to itself.
#[verifier::external_body]
fn to_ascii_upper(c: char) -> (r: char)
    ensures
        r == ascii_upper(c),
{
    c.to_ascii_uppercase()
}

/// Relies on String::push: appends one character.
#[verifier::external_body]
fn push_char(s: &mut String, c: char)
    ensures
        final(s)@ == old(s)@.push(c),
{
    s.push(c)
}

/// Capitalizes one text value: the first character is upper-cased by ASCII rules, the rest
/// is kept as it is.
pub fn capitalize_str(value: &str) -> (r: String)
    ensures
        r@ == capitalized(value@),
{
    let n = value.unicode_len();
    if n == 0 {
        return String::new();
    }
    let first = to_ascii_upper(value.get_char(0));
    let mut r = String::new();
    push_char(&mut r, first);
    let rest = value.substring_char(1, n);
    r.append(rest);
    assert(r@ =~= capitalized(value@));
    r
}

/// Capitalizes every non-null value of a text column; nulls stay null.
pub fn capitalize(col: &Vec<Option<String>>) -> (r: Vec<Option<String>>)
    ensures
        texts(r@) == texts(col@).map_values(|o: Option<Seq<char>>| match o {
            Some(v) => Some(capitalized(v)),
            None => None,
        }),
{
    let ghost want = texts(col@).map_values(|o: Option<Seq<char>>| match o {
        Some(v) => Some(capitalized(v)),
        None => None,
    });
    let mut out: Vec<Option<String>> = Vec::with_capacity(col.len());
    let mut i: usize = 0;
    while i < col.len()
        invariant
            want == texts(col@).map_values(|o: Option<Seq<char>>| match o {
                Some(v) => Some(capitalized(v)),
                None => None,
            }),
            i <= col.len(),
            texts(out@) == want.take(i as int),
        decreases col.len() - i,
    {
        let ghost before = texts(out@);
        let m = match &col[i] {
            Some(v) => Some(capitalize_str(v.as_str())),
            None => None,
        };
        out.push(m);
        proof {
            assert(texts(col@)[i as int] == match col@[i as int] {
                Some(v) => Some(v@),
                None => None::<Seq<char>>,
            });
            assert(texts(out@) =~= before.push(texts(out@)[i as int]));
            assert(texts(out@) =~= want.take(i + 1));
        }
        i = i + 1;
    }
    assert(want.take(i as int) =~= want);
    out
}

/// Capitalizing a non-empty text keeps its length and every character after the first, and
/// changes the first only when it is an ASCII lower-case letter, to the same letter in upper case.
pub proof fn lemma_capitalize_first_only(s: Seq<char>)
    requires
        s.len() > 0,
    ensures
        capitalized(s).len() == s.len(),
        forall|i: int| 1 <= i < s.len() ==> #[trigger] capitalized(s)[i] == s[i],
        'a' <= s[0] <= 'z' ==> capitalized(s)[0] as u32 == s[0] as u32 - 32,
        !('a' <= s[0] <= 'z') ==> capitalized(s)[0] == s[0],
{
}

/// The empty text capitalizes to itself.
pub proof fn lemma_capitalize_empty()
    ensures
        capitalized(Seq::<char>::empty()) == Seq::<char>::empty(),
{
}

} // verus!
