use vstd::prelude::*;

use crate::model::views_of;
use crate::text::char_string;
use vstd::string::StringExecFns;

verus! {

/// Every entry followed by the separator, concatenated.
pub open spec fn terminated(ps: Seq<Seq<char>>, sep: char) -> Seq<char>
    decreases ps.len(),
{
    if ps.len() == 0 {
        Seq::empty()
    } else {
        terminated(ps.drop_last(), sep) + ps.last().push(sep)
    }
}

/// What formatting owes: each password followed by one separator; with no
/// passwords, a single separator.
pub open spec fn formatted(ps: Seq<Seq<char>>, sep: char) -> Seq<char> {
    if ps.len() == 0 {
        seq![sep]
    } else {
        terminated(ps, sep)
    }
}

/// Join the passwords for output, one separator after each: a null
/// character when asked for, a newline otherwise.
pub fn format_passwords(passwords: Vec<String>, null_separator: bool) -> (r: String)
    ensures
        r@ == formatted(views_of(passwords@), if null_separator {
            '\0'
        } else {
            '\n'
        }),
{
    let sep = if null_separator {
        '\0'
    } else {
        '\n'
    };
    let sep_str = char_string(sep);
    if passwords.len() == 0 {
        return sep_str;
    }
    let ghost ps = views_of(passwords@);
    let mut out = String::new();
    let mut i: usize = 0;
    while i < passwords.len()
        invariant
            i <= passwords@.len(),
            ps == views_of(passwords@),
            sep_str@ == seq![sep],
            out@ == terminated(ps.take(i as int), sep),
        decreases passwords@.len() - i,
    {
        out.append(passwords[i].as_str());
        out.append(sep_str.as_str());
        proof {
            assert(ps.take(i + 1).drop_last() =~= ps.take(i as int));
            assert(ps.take(i + 1).last() == passwords@[i as int]@);
            assert(out@ =~= terminated(ps.take(i + 1), sep));
        }
        i += 1;
    }
    proof {
        assert(ps.take(ps.len() as int) =~= ps);
    }
    out
}

} // verus!
