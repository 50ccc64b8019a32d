use vstd::prelude::*;

verus! {

/// The characters of `text` cut or padded with spaces to exactly `width` characters.
pub open spec fn fitted(text: Seq<char>, width: nat) -> Seq<char> {
    if text.len() >= width {
        text.subrange(0, width as int)
    } else {
        text + Seq::new((width - text.len()) as nat, |i: int| ' ')
    }
}

/// Relies on `str::chars` collected into a `Vec`: one element per character, in order.
#[verifier::external_body]
pub(crate) fn chars_of(s: &str) -> (r: Vec<char>)
    ensures
        r@ == s@,
{
    s.chars().collect()
}

/// Relies on `String: FromIterator<&char>`: the characters joined in order.
#[verifier::external_body]
pub(crate) fn string_of(v: &[char]) -> (r: String)
    ensures
        r@ == v@,
{
    v.iter().collect()
}

/// Return a version of `text` that is exactly `width` characters long: it is
/// truncated if it is too long and padded with spaces if it is too short.
pub fn force_width(text: String, width: usize) -> (r: String)
    ensures
        r@ == fitted(text@, width as nat),
{
    let chars = chars_of(text.as_str());
    let mut out: Vec<char> = Vec::new();
    let mut i: usize = 0;
    while i < width
        invariant
            i <= width,
            out@.len() == i,
            forall|j: int| 0 <= j < i ==> out@[j] == fitted(chars@, width as nat)[j],
        decreases width - i,
    {
        if i < chars.len() {
            out.push(chars[i]);
        } else {
            out.push(' ');
        }
        i = i + 1;
    }
    assert(out@ =~= fitted(chars@, width as nat));
    string_of(out.as_slice())
}

} // verus!
