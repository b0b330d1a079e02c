use vstd::prelude::*;

use unicode_segmentation::UnicodeSegmentation;

use crate::classifier::Classifier;
use crate::encoding::{decode, decoded_text, encoding_known};
use crate::errors::PasswordsError;
use crate::maker::PasswordMaker;
use crate::model::buffer_ok;
use crate::random::RandomSource;
use vstd::string::StringExecFns;

verus! {

/// The grapheme clusters of a text, in order.
pub uninterp spec fn clusters_of(text: Seq<char>) -> Seq<Seq<char>>;

/// Split text into its grapheme clusters.
///
/// Relies on unicode_segmentation's `UnicodeSegmentation::graphemes` over
/// extended clusters: the split depends on the text alone, each cluster is
/// a non-empty substring, and the clusters concatenate back to the text.
#[verifier::external_body]
fn split_clusters(text: &str) -> (r: Vec<String>)
    ensures
        r@.map_values(|s: String| s@) == clusters_of(text@),
        r@.map_values(|s: String| s@).flatten() == text@,
        forall|i: int| 0 <= i < r@.len() ==> (#[trigger] r@[i])@.len() > 0,
        r@.len() == 0 <==> text@.len() == 0,
{
    text.graphemes(true).map(|s| s.to_string()).collect()
}

/// Build a classifier from decoded text: the candidates are the text's
/// grapheme clusters, and a minimum requested over an empty candidate list
/// is lowered to zero.
pub fn classifier_from_text(text: &str, minimum_count: u32) -> (c: Classifier)
    ensures
        c.pool() == clusters_of(text@),
        c.minimum_count == if clusters_of(text@).len() == 0 {
            0u32
        } else {
            minimum_count
        },
{
    let candidates = split_clusters(text);
    proof {
        assert(candidates@.len() == clusters_of(text@).len());
    }
    let minimum_count = if candidates.len() == 0 {
        0
    } else {
        minimum_count
    };
    Classifier { candidates, minimum_count }
}

/// The raw inputs an interface hands over: per classifier a byte string to
/// decode under one named encoding and a requested minimum count, plus the
/// password length and how many passwords to produce.
#[derive(Debug, Clone)]
pub struct MakerOptions {
    /// Length of each password.
    pub length: u32,
    /// Number of passwords to produce.
    pub count: u32,
    /// Candidate bytes for uppercase letters.
    pub uppercase_candidates: Vec<u8>,
    /// Minimum number of uppercase candidates in each password.
    pub uppercase_minimum_count: u32,
    /// Candidate bytes for lowercase letters.
    pub lowercase_candidates: Vec<u8>,
    /// Minimum number of lowercase candidates in each password.
    pub lowercase_minimum_count: u32,
    /// Candidate bytes for digits.
    pub number_candidates: Vec<u8>,
    /// Minimum number of digit candidates in each password.
    pub number_minimum_count: u32,
    /// Candidate bytes for symbols.
    pub symbol_candidates: Vec<u8>,
    /// Minimum number of symbol candidates in each password.
    pub symbol_minimum_count: u32,
    /// Candidate bytes for any further classes, one entry per class.
    pub other_candidates: Option<Vec<Vec<u8>>>,
    /// Minimum counts for the further classes, matched up by position.
    pub other_minimum_count: Option<Vec<u32>>,
    /// The encoding of every candidate byte string.
    pub encoding: String,
}

/// The byte codes of the inclusive ASCII range, in order.
pub open spec fn ascii_byte_range(lo: u8, hi: u8) -> Seq<u8> {
    Seq::new((hi - lo + 1) as nat, |i: int| (lo + i) as u8)
}

/// Build the bytes of `ascii_byte_range(lo, hi)`.
fn ascii_bytes(lo: u8, hi: u8) -> (r: Vec<u8>)
    requires
        lo <= hi < 255,
    ensures
        r@ == ascii_byte_range(lo, hi),
{
    let mut r: Vec<u8> = Vec::new();
    let mut b: u8 = lo;
    while b <= hi
        invariant
            lo <= b,
            b <= hi + 1,
            hi < 255,
            r@.len() == b - lo,
            r@ == ascii_byte_range(lo, hi).take(b - lo),
        decreases hi + 1 - b,
    {
        r.push(b);
        proof {
            assert(r@ =~= ascii_byte_range(lo, hi).take(b + 1 - lo));
        }
        b += 1;
    }
    proof {
        assert(ascii_byte_range(lo, hi).take((hi - lo + 1) as int) =~= ascii_byte_range(lo, hi));
    }
    r
}

/// The default symbol candidate bytes: every ASCII punctuation character.
pub open spec fn default_symbol_bytes() -> Seq<u8> {
    ascii_byte_range(0x21, 0x2f) + ascii_byte_range(0x3a, 0x40) + ascii_byte_range(0x5b, 0x60)
        + ascii_byte_range(0x7b, 0x7e)
}

impl Default for MakerOptions {
    /// The default options: one password of sixteen characters, the full
    /// ASCII ranges as candidates with a minimum of one each, no further
    /// classifiers, and UTF-8 as the encoding.
    fn default() -> (r: MakerOptions)
        ensures
            r.length == 16,
            r.count == 1,
            r.uppercase_candidates@ == ascii_byte_range(0x41, 0x5a),
            r.uppercase_minimum_count == 1,
            r.lowercase_candidates@ == ascii_byte_range(0x61, 0x7a),
            r.lowercase_minimum_count == 1,
            r.number_candidates@ == ascii_byte_range(0x30, 0x39),
            r.number_minimum_count == 1,
            r.symbol_candidates@ == default_symbol_bytes(),
            r.symbol_minimum_count == 1,
            r.other_candidates is None,
            r.other_minimum_count is None,
            r.encoding@ == "utf-8"@,
    {
        let mut symbols = ascii_bytes(0x21, 0x2f);
        let mut rest = ascii_bytes(0x3a, 0x40);
        symbols.append(&mut rest);
        let mut rest = ascii_bytes(0x5b, 0x60);
        symbols.append(&mut rest);
        let mut rest = ascii_bytes(0x7b, 0x7e);
        symbols.append(&mut rest);
        MakerOptions {
            length: 16,
            count: 1,
            uppercase_candidates: ascii_bytes(0x41, 0x5a),
            uppercase_minimum_count: 1,
            lowercase_candidates: ascii_bytes(0x61, 0x7a),
            lowercase_minimum_count: 1,
            number_candidates: ascii_bytes(0x30, 0x39),
            number_minimum_count: 1,
            symbol_candidates: symbols,
            symbol_minimum_count: 1,
            other_candidates: None,
            other_minimum_count: None,
            encoding: String::from_str("utf-8"),
        }
    }
}

/// The clusters that a candidate byte string contributes.
pub open spec fn clusters_from(label: Seq<char>, bytes: Seq<u8>) -> Seq<Seq<char>> {
    clusters_of(decoded_text(label, bytes))
}

/// The minimum a named classifier ends up with: lowered to zero when its
/// candidate list decodes to nothing.
pub open spec fn named_min(label: Seq<char>, bytes: Seq<u8>, requested: u32) -> u32 {
    if clusters_from(label, bytes).len() == 0 {
        0u32
    } else {
        requested
    }
}

/// The further candidate byte strings, or none.
pub open spec fn others_given(args: MakerOptions) -> Seq<Vec<u8>> {
    match args.other_candidates {
        Some(v) => v@,
        None => Seq::empty(),
    }
}

/// The further minimum counts, or none.
pub open spec fn other_mins_given(args: MakerOptions) -> Seq<u32> {
    match args.other_minimum_count {
        Some(v) => v@,
        None => Seq::empty(),
    }
}

/// How many further classifiers the options describe: candidate lists and
/// minimum counts are matched up, the shorter side padded.
pub open spec fn others_count(args: MakerOptions) -> int {
    if others_given(args).len() >= other_mins_given(args).len() {
        others_given(args).len() as int
    } else {
        other_mins_given(args).len() as int
    }
}

/// The pool of the further classifier at the position: its decoded
/// clusters, or nothing where only a minimum count was given.
pub open spec fn other_pool_at(args: MakerOptions, i: int) -> Seq<Seq<char>> {
    if i < others_given(args).len() {
        clusters_from(args.encoding@, others_given(args)[i]@)
    } else {
        clusters_of(Seq::<char>::empty())
    }
}

/// The minimum count of the further classifier at the position: as given,
/// or zero where only candidates were given.
pub open spec fn other_min_at(args: MakerOptions, i: int) -> u32 {
    if i < other_mins_given(args).len() {
        other_mins_given(args)[i]
    } else {
        0u32
    }
}

/// Whether a specification's classifiers are the ones the options
/// describe.
pub open spec fn classifiers_match(m: PasswordMaker, args: MakerOptions) -> bool {
    &&& m.uppercase.pool() == clusters_from(args.encoding@, args.uppercase_candidates@)
    &&& m.uppercase.minimum_count == named_min(
        args.encoding@,
        args.uppercase_candidates@,
        args.uppercase_minimum_count,
    )
    &&& m.lowercase.pool() == clusters_from(args.encoding@, args.lowercase_candidates@)
    &&& m.lowercase.minimum_count == named_min(
        args.encoding@,
        args.lowercase_candidates@,
        args.lowercase_minimum_count,
    )
    &&& m.number.pool() == clusters_from(args.encoding@, args.number_candidates@)
    &&& m.number.minimum_count == named_min(
        args.encoding@,
        args.number_candidates@,
        args.number_minimum_count,
    )
    &&& m.symbol.pool() == clusters_from(args.encoding@, args.symbol_candidates@)
    &&& m.symbol.minimum_count == named_min(
        args.encoding@,
        args.symbol_candidates@,
        args.symbol_minimum_count,
    )
    &&& m.others@.len() == others_count(args)
    &&& forall|i: int|
        0 <= i < others_count(args) ==> (#[trigger] m.others@[i]).pool() == other_pool_at(args, i)
            && m.others@[i].minimum_count == other_min_at(args, i)
}

/// Every password in the batch is the concatenation of a buffer that the
/// specification's generation promises.
pub open spec fn passwords_from(m: PasswordMaker, ps: Seq<String>) -> bool {
    forall|i: int|
        0 <= i < ps.len() ==> exists|buf: Seq<Seq<char>>|
            #[trigger] buffer_ok(m, buf) && (#[trigger] ps[i])@ == buf.flatten()
}

/// Whether a specification is the one the options describe.
pub open spec fn maker_matches(m: PasswordMaker, args: MakerOptions) -> bool {
    &&& m.length == args.length
    &&& !m.exclude_similar
    &&& !m.include_whitespace_in_candidate
    &&& classifiers_match(m, args)
}

/// Fill the specification's classifiers from the raw options: decode every
/// candidate byte string under the named encoding, split it into grapheme
/// clusters, lower a named classifier's minimum to zero when it has no
/// candidates, and match the further candidate lists and minimum counts up
/// by position, padding the shorter side.
pub fn set_classifiers(maker: &mut PasswordMaker, args: &MakerOptions) -> (r: Result<(), String>)
    ensures
        r is Ok <==> encoding_known(args.encoding@),
        r is Ok ==> classifiers_match(*final(maker), *args)
            && final(maker).length == old(maker).length
            && final(maker).exclude_similar == old(maker).exclude_similar
            && final(maker).include_whitespace_in_candidate
            == old(maker).include_whitespace_in_candidate,
        r is Err ==> *final(maker) == *old(maker) && r->Err_0@ == "Unsupported encoding: "@
            + args.encoding@,
{
    let up_text = match decode(args.uppercase_candidates.as_slice(), &args.encoding) {
        Ok(s) => s,
        Err(e) => {
            return Err(e);
        },
    };
    let low_text = match decode(args.lowercase_candidates.as_slice(), &args.encoding) {
        Ok(s) => s,
        Err(e) => {
            return Err(e);
        },
    };
    let num_text = match decode(args.number_candidates.as_slice(), &args.encoding) {
        Ok(s) => s,
        Err(e) => {
            return Err(e);
        },
    };
    let sym_text = match decode(args.symbol_candidates.as_slice(), &args.encoding) {
        Ok(s) => s,
        Err(e) => {
            return Err(e);
        },
    };
    let ghost oc = others_given(*args);
    let mut other_texts: Vec<String> = Vec::new();
    match &args.other_candidates {
        Some(ocs) => {
            let mut i: usize = 0;
            while i < ocs.len()
                invariant
                    i <= ocs@.len(),
                    oc == ocs@,
                    encoding_known(args.encoding@),
                    other_texts@.len() == i,
                    forall|q: int|
                        0 <= q < i ==> (#[trigger] other_texts@[q])@ == decoded_text(
                            args.encoding@,
                            ocs@[q]@,
                        ),
                decreases ocs@.len() - i,
            {
                match decode(ocs[i].as_slice(), &args.encoding) {
                    Ok(s) => {
                        other_texts.push(s);
                    },
                    Err(e) => {
                        return Err(e);
                    },
                }
                i += 1;
            }
        },
        None => {},
    }
    let ghost omc = other_mins_given(*args);
    let ghost target = others_count(*args);
    let mins_len = match &args.other_minimum_count {
        Some(v) => v.len(),
        None => 0,
    };
    while other_texts.len() < mins_len
        invariant
            oc == others_given(*args),
            omc == other_mins_given(*args),
            mins_len == omc.len(),
            target == others_count(*args),
            oc.len() <= other_texts@.len(),
            other_texts@.len() <= target,
            forall|q: int|
                0 <= q < oc.len() ==> (#[trigger] other_texts@[q])@ == decoded_text(
                    args.encoding@,
                    oc[q]@,
                ),
            forall|q: int|
                oc.len() <= q < other_texts@.len() ==> (#[trigger] other_texts@[q])@
                    == Seq::<char>::empty(),
        decreases mins_len - other_texts@.len(),
    {
        other_texts.push(String::new());
    }
    proof {
        assert(other_texts@.len() == target);
    }
    let mut mins: Vec<u32> = Vec::new();
    match &args.other_minimum_count {
        Some(v) => {
            let mut i: usize = 0;
            while i < v.len()
                invariant
                    i <= v@.len(),
                    omc == v@,
                    mins@ == v@.take(i as int),
                decreases v@.len() - i,
            {
                mins.push(v[i]);
                proof {
                    assert(mins@ =~= v@.take(i + 1));
                }
                i += 1;
            }
            proof {
                assert(v@.take(v@.len() as int) =~= v@);
            }
        },
        None => {},
    }
    while mins.len() < other_texts.len()
        invariant
            omc == other_mins_given(*args),
            target == others_count(*args),
            other_texts@.len() == target,
            omc.len() <= mins@.len(),
            mins@.len() <= target,
            forall|q: int| 0 <= q < omc.len() ==> (#[trigger] mins@[q]) == omc[q],
            forall|q: int| omc.len() <= q < mins@.len() ==> (#[trigger] mins@[q]) == 0u32,
        decreases other_texts@.len() - mins@.len(),
    {
        mins.push(0);
    }
    proof {
        assert(mins@.len() == target);
    }
    let mut built: Vec<Classifier> = Vec::new();
    let mut i: usize = 0;
    while i < other_texts.len()
        invariant
            i <= other_texts@.len(),
            mins@.len() >= other_texts@.len(),
            built@.len() == i,
            forall|q: int|
                0 <= q < i ==> (#[trigger] built@[q]).pool() == clusters_of(other_texts@[q]@)
                    && built@[q].minimum_count == mins@[q],
        decreases other_texts@.len() - i,
    {
        let cands = split_clusters(other_texts[i].as_str());
        built.push(Classifier { candidates: cands, minimum_count: mins[i] });
        i += 1;
    }
    let ghost built_len = built@.len();
    maker.uppercase = classifier_from_text(up_text.as_str(), args.uppercase_minimum_count);
    maker.lowercase = classifier_from_text(low_text.as_str(), args.lowercase_minimum_count);
    maker.number = classifier_from_text(num_text.as_str(), args.number_minimum_count);
    maker.symbol = classifier_from_text(sym_text.as_str(), args.symbol_minimum_count);
    maker.others = built;
    proof {
        assert(built_len == others_count(*args));
        assert forall|q: int| 0 <= q < others_count(*args) implies (#[trigger] maker.others@[q]).pool()
            == other_pool_at(*args, q) && maker.others@[q].minimum_count == other_min_at(
            *args,
            q,
        ) by {
            assert(maker.others@[q].pool() == clusters_of(other_texts@[q]@));
            assert(maker.others@[q].minimum_count == mins@[q]);
            if q < oc.len() {
                assert(other_texts@[q]@ == decoded_text(args.encoding@, oc[q]@));
            } else {
                assert(other_texts@[q]@ == Seq::<char>::empty());
            }
            if q < omc.len() {
                assert(mins@[q] == omc[q]);
            } else {
                assert(mins@[q] == 0u32);
            }
        }
    }
    Ok(())
}

/// Build a specification from the raw options and generate the requested
/// number of passwords with the given source.
pub fn generate_passwords(args: &MakerOptions, source: &mut RandomSource) -> (r: Result<
    Vec<String>,
    PasswordsError,
>)
    ensures
        encoding_known(args.encoding@) && args.count == 0 ==> r is Ok,
        !encoding_known(args.encoding@) ==> r is Err && r->Err_0 is Encoding
            && r->Err_0->Encoding_0@ == "Unsupported encoding: "@ + args.encoding@,
        encoding_known(args.encoding@) && r is Err ==> r->Err_0 is Generation && args.count > 0
            && exists|m: PasswordMaker|
            #[trigger] maker_matches(m, *args) && (m.validate_spec() is Err || (
            m.assembled().len() == 0 && m.length > 0)),
        r is Ok ==> r->Ok_0@.len() == args.count,
        r is Ok ==> exists|m: PasswordMaker|
            #[trigger] maker_matches(m, *args) && passwords_from(m, r->Ok_0@),
        final(source).key() == old(source).key(),
{
    let ghost key0 = source.key();
    let mut maker = PasswordMaker::default();
    maker.length = args.length;
    match set_classifiers(&mut maker, args) {
        Err(e) => {
            return Err(PasswordsError::Encoding(e));
        },
        Ok(_) => {},
    }
    let mut passwords: Vec<String> = Vec::new();
    let mut c: u32 = 0;
    while c < args.count
        invariant
            c <= args.count,
            encoding_known(args.encoding@),
            maker_matches(maker, *args),
            source.key() == old(source).key(),
            passwords@.len() == c,
            passwords_from(maker, passwords@),
        decreases args.count - c,
    {
        let ghost pre = passwords@;
        match maker.generate_with(source) {
            Ok(p) => {
                let ghost pv = p@;
                passwords.push(p);
                proof {
                    assert forall|i: int| 0 <= i < passwords@.len() implies exists|
                        buf: Seq<Seq<char>>,
                    |
                        #[trigger] buffer_ok(maker, buf) && (#[trigger] passwords@[i])@
                            == buf.flatten() by {
                        if i < pre.len() {
                            assert(passwords@[i] == pre[i]);
                            assert(exists|buf: Seq<Seq<char>>|
                                #[trigger] buffer_ok(maker, buf) && (pre[i])@ == buf.flatten());
                        } else {
                            assert((passwords@[i])@ == pv);
                        }
                    }
                }
            },
            Err(e) => {
                return Err(PasswordsError::Generation(e));
            },
        }
        c += 1;
    }
    proof {
        assert(maker_matches(maker, *args) && passwords_from(maker, passwords@));
    }
    Ok(passwords)
}

} // verus!
