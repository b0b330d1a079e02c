use vstd::prelude::*;

verus! {

/// Relies on char's `ToString`: the returned string holds exactly the one
/// character it was given.
#[verifier::external_body]
pub fn char_string(c: char) -> (r: String)
    ensures
        r@ == seq![c],
{
    c.to_string()
}

/// Whether an entry equals one of the six characters that are easily
/// mistaken for one another: `i`, `l`, `1`, `o`, `0`, `O`.
pub open spec fn is_similar(s: Seq<char>) -> bool {
    ||| s == seq!['i']
    ||| s == seq!['l']
    ||| s == seq!['1']
    ||| s == seq!['o']
    ||| s == seq!['0']
    ||| s == seq!['O']
}

/// Runtime test matching `is_similar` exactly.
pub fn is_similar_entry(s: &String) -> (b: bool)
    ensures
        b == is_similar(s@),
{
    let r = *s == char_string('i') || *s == char_string('l') || *s == char_string('1')
        || *s == char_string('o') || *s == char_string('0') || *s == char_string('O');
    r
}

} // verus!
