use vstd::prelude::*;

use core::ops::Range;

use crate::classifier::{
    lemma_sum_min_nonneg, lemma_sum_min_prefix_mono, lemma_sum_min_take, sum_min, Classifier,
};
use crate::errors::{ClassifierId, GenerationError, ValidationError};
use crate::model::{
    buffer_ok, count_from, entry_allowed, fill_rec, from_minimum_pool, generate_spec,
    generate_trace, lemma_count_from_positions, meets_minimums, overwrite_full, overwrite_rec,
    range_vals, replace_rec, sample_spec, shuffle_rec, views_of,
};
use crate::random::RandomSource;
use crate::text::{char_string, is_similar, is_similar_entry};
use vstd::string::StringExecFns;

verus! {

/// A password specification: the requested length, pool-level options, the
/// four named classifiers and any number of additional ones.
#[derive(Debug, Clone)]
pub struct PasswordMaker {
    /// Length of the password, counted in candidate entries.
    pub length: u32,
    /// Exclude the entries `i`, `l`, `1`, `o`, `0`, `O` from the merged pool.
    pub exclude_similar: bool,
    /// Append a single space to the merged candidate pool.
    pub include_whitespace_in_candidate: bool,
    /// Settings for lowercase letters.
    pub lowercase: Classifier,
    /// Settings for uppercase letters.
    pub uppercase: Classifier,
    /// Settings for digits.
    pub number: Classifier,
    /// Settings for symbols.
    pub symbol: Classifier,
    /// Settings for any further classes of characters.
    pub others: Vec<Classifier>,
}

impl PasswordMaker {
    /// Every classifier, in the fixed order the overwrite phase uses:
    /// uppercase, lowercase, number, symbol, then the others in declaration
    /// order.
    pub open spec fn all_classifiers(self) -> Seq<Classifier> {
        seq![self.uppercase, self.lowercase, self.number, self.symbol] + self.others@
    }

    /// Sum of every classifier's minimum count.
    pub open spec fn total_min(self) -> int {
        sum_min(self.all_classifiers())
    }

    /// The outcome validation owes for this specification: the first
    /// infeasible classifier in checking order, then the length check.
    pub open spec fn validate_spec(self) -> Result<(), ValidationError> {
        match first_empty_with_min(self.others@) {
            Some(i) => Err(ValidationError::EmptyPoolWithMinimum {
                classifier: ClassifierId::Other(i as usize),
                minimum_count: self.others@[i].minimum_count,
            }),
            None => if self.uppercase.empty_with_min() {
                Err(ValidationError::EmptyPoolWithMinimum {
                    classifier: ClassifierId::Uppercase,
                    minimum_count: self.uppercase.minimum_count,
                })
            } else if self.lowercase.empty_with_min() {
                Err(ValidationError::EmptyPoolWithMinimum {
                    classifier: ClassifierId::Lowercase,
                    minimum_count: self.lowercase.minimum_count,
                })
            } else if self.number.empty_with_min() {
                Err(ValidationError::EmptyPoolWithMinimum {
                    classifier: ClassifierId::Number,
                    minimum_count: self.number.minimum_count,
                })
            } else if self.symbol.empty_with_min() {
                Err(ValidationError::EmptyPoolWithMinimum {
                    classifier: ClassifierId::Symbol,
                    minimum_count: self.symbol.minimum_count,
                })
            } else if (self.length as int) < self.total_min() {
                Err(ValidationError::MinimumExceedsLength {
                    total_min: self.total_min() as u128,
                    length: self.length,
                })
            } else {
                Ok(())
            },
        }
    }

    /// Check that the specification can be satisfied: no classifier demands
    /// characters from an empty pool, and the minimum counts fit into the
    /// requested length.
    pub fn validate(&self) -> (r: Result<(), ValidationError>)
        ensures
            r == self.validate_spec(),
    {
        let ghost all = self.all_classifiers();
        let mut i: usize = 0;
        while i < self.others.len()
            invariant
                0 <= i <= self.others@.len(),
                forall|j: int| 0 <= j < i ==> !(#[trigger] self.others@[j]).empty_with_min(),
            decreases self.others@.len() - i,
        {
            if self.others[i].candidates.len() == 0 && self.others[i].minimum_count > 0 {
                proof {
                    lemma_first_empty_with_min_scan(self.others@, i as int);
                }
                return Err(ValidationError::EmptyPoolWithMinimum {
                    classifier: ClassifierId::Other(i),
                    minimum_count: self.others[i].minimum_count,
                });
            }
            i += 1;
        }
        proof {
            lemma_first_empty_with_min_scan(self.others@, self.others@.len() as int);
        }
        if self.uppercase.candidates.len() == 0 && self.uppercase.minimum_count > 0 {
            return Err(ValidationError::EmptyPoolWithMinimum {
                classifier: ClassifierId::Uppercase,
                minimum_count: self.uppercase.minimum_count,
            });
        }
        if self.lowercase.candidates.len() == 0 && self.lowercase.minimum_count > 0 {
            return Err(ValidationError::EmptyPoolWithMinimum {
                classifier: ClassifierId::Lowercase,
                minimum_count: self.lowercase.minimum_count,
            });
        }
        if self.number.candidates.len() == 0 && self.number.minimum_count > 0 {
            return Err(ValidationError::EmptyPoolWithMinimum {
                classifier: ClassifierId::Number,
                minimum_count: self.number.minimum_count,
            });
        }
        if self.symbol.candidates.len() == 0 && self.symbol.minimum_count > 0 {
            return Err(ValidationError::EmptyPoolWithMinimum {
                classifier: ClassifierId::Symbol,
                minimum_count: self.symbol.minimum_count,
            });
        }
        let total = self.total_min_exec();
        if (self.length as u128) < total {
            Err(ValidationError::MinimumExceedsLength { total_min: total, length: self.length })
        } else {
            Ok(())
        }
    }

    /// Sum every classifier's minimum count, exactly.
    fn total_min_exec(&self) -> (t: u128)
        ensures
            t as int == self.total_min(),
            t == self.total_min() as u128,
    {
        let ghost all = self.all_classifiers();
        let mut total: u128 = self.uppercase.minimum_count as u128
            + self.lowercase.minimum_count as u128 + self.number.minimum_count as u128
            + self.symbol.minimum_count as u128;
        proof {
            assert(all.take(0) =~= Seq::<Classifier>::empty());
            lemma_sum_min_take(all, 0);
            lemma_sum_min_take(all, 1);
            lemma_sum_min_take(all, 2);
            lemma_sum_min_take(all, 3);
            assert(total == sum_min(all.take(4)));
        }
        let mut k: usize = 0;
        while k < self.others.len()
            invariant
                0 <= k <= self.others@.len(),
                all == self.all_classifiers(),
                total == sum_min(all.take(4 + k)),
                total <= (4 + k as int) * 0xffff_ffff,
            decreases self.others@.len() - k,
        {
            proof {
                lemma_sum_min_take(all, 4 + k as int);
                assert(all[4 + k as int] == self.others@[k as int]);
            }
            total = total + self.others[k].minimum_count as u128;
            k += 1;
        }
        proof {
            assert(all.take(4 + self.others@.len() as int) =~= all);
            lemma_sum_min_nonneg(all);
        }
        total
    }
}

impl PasswordMaker {
    /// The merged candidate pool, before the whitespace and similar-entry
    /// options are applied: lowercase, uppercase, number, symbol, then each
    /// additional classifier in declaration order.
    pub open spec fn merged_pool(self) -> Seq<Seq<char>> {
        self.lowercase.pool() + self.uppercase.pool() + self.number.pool() + self.symbol.pool()
            + others_pools(self.others@)
    }

    /// The merged pool with the optional whitespace entry appended.
    pub open spec fn pool_with_whitespace(self) -> Seq<Seq<char>> {
        if self.include_whitespace_in_candidate {
            self.merged_pool().push(seq![' '])
        } else {
            self.merged_pool()
        }
    }

    /// The assembled candidate pool that the uniform fill draws from.
    pub open spec fn assembled(self) -> Seq<Seq<char>> {
        if self.exclude_similar {
            self.pool_with_whitespace().filter(|e: Seq<char>| !is_similar(e))
        } else {
            self.pool_with_whitespace()
        }
    }

    /// Return the assembled candidate pool: every classifier's candidates in
    /// fixed order, the optional whitespace entry, and, when similar entries
    /// are excluded, none of `i`, `l`, `1`, `o`, `0`, `O`.
    pub fn candidates(&self) -> (r: Vec<String>)
        ensures
            r@.map_values(|s: String| s@) == self.assembled(),
    {
        let mut base: Vec<String> = Vec::new();
        append_all(&mut base, &self.lowercase.candidates);
        append_all(&mut base, &self.uppercase.candidates);
        append_all(&mut base, &self.number.candidates);
        append_all(&mut base, &self.symbol.candidates);
        let ghost named: Seq<String> = self.lowercase.candidates@ + self.uppercase.candidates@
            + self.number.candidates@ + self.symbol.candidates@;
        let mut i: usize = 0;
        while i < self.others.len()
            invariant
                0 <= i <= self.others@.len(),
                base@ == named + others_candidates(self.others@.take(i as int)),
            decreases self.others@.len() - i,
        {
            append_all(&mut base, &self.others[i].candidates);
            proof {
                assert(self.others@.take(i + 1).drop_last() =~= self.others@.take(i as int));
                assert(base@ =~= named + others_candidates(self.others@.take(i + 1)));
            }
            i += 1;
        }
        proof {
            assert(self.others@.take(self.others@.len() as int) =~= self.others@);
            lemma_others_pools(self.others@);
            assert(base@.map_values(|s: String| s@) =~= self.merged_pool());
        }
        if self.include_whitespace_in_candidate {
            base.push(char_string(' '));
            proof {
                assert(base@.map_values(|s: String| s@) =~= self.pool_with_whitespace());
            }
        }
        assert(base@.map_values(|s: String| s@) == self.pool_with_whitespace());
        if self.exclude_similar {
            let ghost pool = self.pool_with_whitespace();
            let mut kept: Vec<String> = Vec::new();
            let mut j: usize = 0;
            proof {
                reveal(Seq::filter);
            }
            while j < base.len()
                invariant
                    0 <= j <= base@.len(),
                    base@.map_values(|s: String| s@) == pool,
                    kept@.map_values(|s: String| s@) == pool.take(j as int).filter(
                        |e: Seq<char>| !is_similar(e),
                    ),
                decreases base@.len() - j,
            {
                proof {
                    reveal(Seq::filter);
                    assert(pool.take(j + 1).drop_last() =~= pool.take(j as int));
                    assert(pool.take(j + 1).last() == base@[j as int]@);
                }
                if !is_similar_entry(&base[j]) {
                    kept.push(base[j].clone());
                }
                proof {
                    assert(kept@.map_values(|s: String| s@) =~= pool.take(j + 1).filter(
                        |e: Seq<char>| !is_similar(e),
                    ));
                }
                j += 1;
            }
            proof {
                assert(pool.take(pool.len() as int) =~= pool);
            }
            kept
        } else {
            base
        }
    }
}

/// Append clones of every entry of `src` to `dst`.
fn append_all(dst: &mut Vec<String>, src: &Vec<String>)
    ensures
        final(dst)@ == old(dst)@ + src@,
{
    let mut i: usize = 0;
    while i < src.len()
        invariant
            0 <= i <= src@.len(),
            dst@ == old(dst)@ + src@.take(i as int),
        decreases src@.len() - i,
    {
        dst.push(src[i].clone());
        proof {
            assert(dst@ =~= old(dst)@ + src@.take(i + 1));
        }
        i += 1;
    }
    proof {
        assert(old(dst)@ + src@.take(src@.len() as int) =~= old(dst)@ + src@);
    }
}

/// The candidate lists of a sequence of classifiers, concatenated.
pub open spec fn others_candidates(cs: Seq<Classifier>) -> Seq<String>
    decreases cs.len(),
{
    if cs.len() == 0 {
        Seq::empty()
    } else {
        others_candidates(cs.drop_last()) + cs.last().candidates@
    }
}

/// The candidate pools of a sequence of classifiers, concatenated.
pub open spec fn others_pools(cs: Seq<Classifier>) -> Seq<Seq<char>>
    decreases cs.len(),
{
    if cs.len() == 0 {
        Seq::empty()
    } else {
        others_pools(cs.drop_last()) + cs.last().pool()
    }
}

/// Taking the views of the concatenated candidate lists gives the
/// concatenated pools.
proof fn lemma_others_pools(cs: Seq<Classifier>)
    ensures
        others_candidates(cs).map_values(|s: String| s@) == others_pools(cs),
    decreases cs.len(),
{
    if cs.len() > 0 {
        lemma_others_pools(cs.drop_last());
        assert(others_candidates(cs).map_values(|s: String| s@) =~= others_pools(cs));
    } else {
        assert(others_candidates(cs).map_values(|s: String| s@) =~= others_pools(cs));
    }
}

impl PasswordMaker {
    /// Draw `count` distinct values uniformly from the half-open range,
    /// without replacement: a partial shuffle of the whole range, whose
    /// first `count` positions are then handed out.
    pub fn unique_random_numbers(
        &self,
        count: usize,
        range: Range<u32>,
        source: &mut RandomSource,
    ) -> (r: Vec<u32>)
        requires
            range.start <= range.end,
            count <= range.end - range.start,
        ensures
            r@.len() == count,
            forall|i: int| 0 <= i < count ==> range.start <= #[trigger] r@[i] < range.end,
            forall|i: int, j: int| 0 <= i < j < count ==> r@[i] != r@[j],
            final(source).key() == old(source).key(),
            old(source).seeded() ==> (r@, final(source).trace()) == sample_spec(
                range.start,
                range.end,
                count as int,
                old(source).seed(),
                old(source).trace(),
            ),
    {
        let ghost key0 = source.key();
        let ghost h0 = source.trace();
        let start = range.start;
        let end = range.end;
        let width = (end - start) as usize;
        let mut vals: Vec<u32> = Vec::new();
        let mut i: usize = 0;
        while i < width
            invariant
                i <= width,
                width == end - start,
                vals@.len() == i,
                forall|p: int| 0 <= p < i ==> #[trigger] vals@[p] == start + p,
            decreases width - i,
        {
            vals.push(start + (i as u32));
            i += 1;
        }
        proof {
            assert(vals@ =~= range_vals(start, end));
        }
        let mut j: usize = 0;
        while j < count
            invariant
                j <= count,
                count <= width,
                width == end - start,
                vals@.len() == width,
                forall|p: int| 0 <= p < width ==> start <= #[trigger] vals@[p] < end,
                forall|p: int, q: int| 0 <= p < q < width ==> vals@[p] != vals@[q],
                source.key() == key0,
                key0 is Some ==> (vals@, source.trace()) == shuffle_rec(
                    range_vals(start, end),
                    key0->Some_0,
                    h0,
                    j as int,
                ),
            decreases count - j,
        {
            let ghost pre = vals@;
            let bound = width - j;
            let d = source.draw_below(bound);
            let t = j + d;
            let a = vals[j];
            let b = vals[t];
            vals[t] = a;
            vals[j] = b;
            proof {
                assert(vals@ =~= pre.update(j as int, pre[t as int]).update(t as int, pre[j as int]));
                if key0 is Some {
                    assert((vals@, source.trace()) == shuffle_rec(
                        range_vals(start, end),
                        key0->Some_0,
                        h0,
                        j + 1,
                    ));
                }
            }
            j += 1;
        }
        vals.truncate(count);
        proof {
            if key0 is Some {
                assert((vals@, source.trace()) == sample_spec(
                    start,
                    end,
                    count as int,
                    key0->Some_0,
                    h0,
                ));
            }
        }
        vals
    }
}

impl PasswordMaker {
    /// Overwrite the listed positions of the password buffer, each with an
    /// entry drawn uniformly from the classifier's own pool. Every other
    /// position keeps its entry, whole.
    pub fn replace_characters(
        &self,
        password: &mut Vec<String>,
        classifier: &Classifier,
        overwrite_indexes: Vec<usize>,
        source: &mut RandomSource,
    )
        requires
            forall|k: int|
                0 <= k < overwrite_indexes@.len() ==> #[trigger] overwrite_indexes@[k]
                    < old(password)@.len(),
            overwrite_indexes@.len() > 0 ==> classifier.candidates@.len() > 0,
        ensures
            final(password)@.len() == old(password)@.len(),
            forall|p: int|
                0 <= p < old(password)@.len() && !overwrite_indexes@.contains(p as usize)
                    ==> #[trigger] final(password)@[p] == old(password)@[p],
            forall|k: int|
                0 <= k < overwrite_indexes@.len() ==> classifier.pool().contains(
                    #[trigger] final(password)@[overwrite_indexes@[k] as int]@,
                ),
            final(source).key() == old(source).key(),
            old(source).seeded() ==> (views_of(final(password)@), final(source).trace())
                == replace_rec(
                views_of(old(password)@),
                classifier.pool(),
                overwrite_indexes@.map_values(|u: usize| u as int),
                overwrite_indexes@.len() as int,
                old(source).seed(),
                old(source).trace(),
            ),
    {
        let ghost key0 = source.key();
        let ghost h0 = source.trace();
        let ghost orig = password@;
        let ghost idxs = overwrite_indexes@.map_values(|u: usize| u as int);
        let mut i: usize = 0;
        while i < overwrite_indexes.len()
            invariant
                i <= overwrite_indexes@.len(),
                idxs == overwrite_indexes@.map_values(|u: usize| u as int),
                forall|k: int|
                    0 <= k < overwrite_indexes@.len() ==> #[trigger] overwrite_indexes@[k]
                        < orig.len(),
                overwrite_indexes@.len() > 0 ==> classifier.candidates@.len() > 0,
                password@.len() == orig.len(),
                forall|p: int|
                    0 <= p < orig.len() && !overwrite_indexes@.contains(p as usize)
                        ==> #[trigger] password@[p] == orig[p],
                forall|k: int|
                    0 <= k < i ==> classifier.pool().contains(
                        #[trigger] password@[overwrite_indexes@[k] as int]@,
                    ),
                source.key() == key0,
                key0 is Some ==> (views_of(password@), source.trace()) == replace_rec(
                    views_of(orig),
                    classifier.pool(),
                    idxs,
                    i as int,
                    key0->Some_0,
                    h0,
                ),
            decreases overwrite_indexes@.len() - i,
        {
            let ghost pre = password@;
            let d = source.draw_below(classifier.candidates.len());
            let entry = classifier.candidates[d].clone();
            let idx = overwrite_indexes[i];
            proof {
                assert(classifier.pool().len() == classifier.candidates@.len());
                assert(classifier.pool()[d as int] == entry@);
                assert(overwrite_indexes@[i as int] == idx);
                assert(overwrite_indexes@.contains(idx));
            }
            password[idx] = entry;
            proof {
                assert(views_of(password@) =~= views_of(pre).update(
                    idx as int,
                    classifier.pool()[d as int],
                ));
                if key0 is Some {
                    assert((views_of(password@), source.trace()) == replace_rec(
                        views_of(orig),
                        classifier.pool(),
                        idxs,
                        i + 1,
                        key0->Some_0,
                        h0,
                    ));
                }
            }
            i += 1;
        }
    }
}

impl PasswordMaker {
    /// Generate a password with the given source of randomness: validate
    /// the specification, assemble the candidate pool, fill a buffer of
    /// `length` entries drawn uniformly from it, let the overwrite phase
    /// meet every classifier's minimum, and concatenate the buffer.
    ///
    /// The result is pinned down for a seeded source, so one seed and one
    /// specification always give the same password.
    #[verifier::rlimit(100)]
    pub fn generate_with(&self, source: &mut RandomSource) -> (r: Result<String, GenerationError>)
        ensures
            self.validate_spec() is Err ==> r == Err::<String, GenerationError>(
                GenerationError::Validation(self.validate_spec()->Err_0),
            ),
            self.validate_spec() is Ok && self.assembled().len() == 0 && self.length > 0 ==> r
                == Err::<String, GenerationError>(GenerationError::NoCandidates),
            self.validate_spec() is Ok && (self.assembled().len() > 0 || self.length == 0) ==> r
                is Ok,
            r is Ok ==> exists|buf: Seq<Seq<char>>|
                #[trigger] buffer_ok(*self, buf) && r->Ok_0@ == buf.flatten(),
            r is Ok && self.length == 0 ==> r->Ok_0@ == Seq::<char>::empty(),
            final(source).key() == old(source).key(),
            old(source).seeded() && r is Ok ==> r->Ok_0@ == generate_spec(
                *self,
                old(source).seed(),
                old(source).trace(),
            ),
            old(source).seeded() && r is Ok ==> final(source).trace() == generate_trace(
                *self,
                old(source).seed(),
                old(source).trace(),
            ),
            r is Err ==> final(source).trace() == old(source).trace(),
    {
        let ghost key0 = source.key();
        let ghost h0 = source.trace();
        match self.validate() {
            Err(e) => {
                return Err(GenerationError::Validation(e));
            },
            Ok(_) => {},
        }
        proof {
            lemma_validate_ok_pools(*self);
        }
        let cands = self.candidates();
        proof {
            assert(cands@.len() == self.assembled().len());
        }
        if cands.len() == 0 && self.length > 0 {
            return Err(GenerationError::NoCandidates);
        }
        let n = self.length as usize;
        let mut buffer: Vec<String> = Vec::new();
        let mut i: usize = 0;
        while i < n
            invariant
                i <= n,
                n == self.length,
                n > 0 ==> cands@.len() > 0,
                cands@.map_values(|s: String| s@) == self.assembled(),
                cands@.len() == self.assembled().len(),
                buffer@.len() == i,
                forall|q: int| 0 <= q < i ==> self.assembled().contains((#[trigger] buffer@[q])@),
                source.key() == key0,
                key0 is Some ==> (views_of(buffer@), source.trace()) == fill_rec(
                    self.assembled(),
                    key0->Some_0,
                    h0,
                    i as int,
                ),
            decreases n - i,
        {
            let ghost pre = buffer@;
            let d = source.draw_below(cands.len());
            let entry = cands[d].clone();
            proof {
                assert(self.assembled()[d as int] == entry@);
                assert(self.assembled().contains(entry@));
            }
            buffer.push(entry);
            proof {
                assert(views_of(buffer@) =~= views_of(pre).push(self.assembled()[d as int]));
                if key0 is Some {
                    assert((views_of(buffer@), source.trace()) == fill_rec(
                        self.assembled(),
                        key0->Some_0,
                        h0,
                        i + 1,
                    ));
                }
            }
            i += 1;
        }
        let ghost buf_mid = buffer@;
        self.overwrite_to_meet_minimum_count(&mut buffer, source);
        let mut out = String::new();
        let mut q: usize = 0;
        while q < buffer.len()
            invariant
                q <= buffer@.len(),
                out@ == views_of(buffer@).take(q as int).flatten_alt(),
            decreases buffer@.len() - q,
        {
            out.append(buffer[q].as_str());
            proof {
                assert(views_of(buffer@).take(q + 1).drop_last() =~= views_of(buffer@).take(
                    q as int,
                ));
                assert(views_of(buffer@).take(q + 1).last() == buffer@[q as int]@);
                assert(out@ == views_of(buffer@).take(q + 1).flatten_alt());
            }
            q += 1;
        }
        proof {
            let buf = views_of(buffer@);
            assert(buf.take(buf.len() as int) =~= buf);
            buf.lemma_flatten_and_flatten_alt_are_equivalent();
            assert(out@ == buf.flatten());
            assert forall|p: int| 0 <= p < buf.len() implies entry_allowed(
                *self,
                #[trigger] buf[p],
            ) by {
                if buffer@[p] == buf_mid[p] {
                    assert(buf[p] == buf_mid[p]@);
                    assert(self.assembled().contains(buf_mid[p]@));
                } else {
                    assert(from_minimum_pool(*self, views_of(buffer@)[p]));
                }
            }
            assert(buffer_ok(*self, buf));
            if key0 is Some {
                assert(out@ == generate_spec(*self, key0->Some_0, h0));
                assert(source.trace() == generate_trace(*self, key0->Some_0, h0));
            }
        }
        Ok(out)
    }

    /// When similar entries are excluded, no entry of the generated buffer
    /// is one of `i`, `l`, `1`, `o`, `0`, `O`, provided no classifier that
    /// the overwrite phase must draw from offers such an entry itself: the
    /// overwrite phase samples each classifier's own pool unfiltered, so a
    /// similar entry there can still reach the password.
    pub proof fn lemma_exclusion(self, buf: Seq<Seq<char>>)
        requires
            self.exclude_similar,
            buffer_ok(self, buf),
            forall|k: int|
                0 <= k < self.all_classifiers().len() ==> ((#[trigger] self.all_classifiers()[k]).minimum_count
                    > 0 ==> forall|e: int|
                    0 <= e < self.all_classifiers()[k].pool().len() ==> !is_similar(
                        #[trigger] self.all_classifiers()[k].pool()[e],
                    )),
        ensures
            forall|p: int| 0 <= p < buf.len() ==> !is_similar(#[trigger] buf[p]),
    {
        let pool = self.pool_with_whitespace();
        let pred = |e: Seq<char>| !is_similar(e);
        assert forall|p: int| 0 <= p < buf.len() implies !is_similar(#[trigger] buf[p]) by {
            assert(entry_allowed(self, buf[p]));
            if self.assembled().contains(buf[p]) {
                let i = choose|i: int|
                    0 <= i < self.assembled().len() && self.assembled()[i] == buf[p];
                pool.lemma_filter_pred(pred, i);
            } else {
                let k = choose|k: int|
                    0 <= k < self.all_classifiers().len()
                        && (#[trigger] self.all_classifiers()[k]).minimum_count > 0
                        && self.all_classifiers()[k].pool().contains(buf[p]);
                let e = choose|e: int|
                    0 <= e < self.all_classifiers()[k].pool().len()
                        && self.all_classifiers()[k].pool()[e] == buf[p];
                assert(!is_similar(self.all_classifiers()[k].pool()[e]));
            }
        }
    }

    /// Generate a password from a source seeded with system entropy.
    pub fn generate(&self) -> (r: Result<String, GenerationError>)
        ensures
            self.validate_spec() is Err ==> r == Err::<String, GenerationError>(
                GenerationError::Validation(self.validate_spec()->Err_0),
            ),
            self.validate_spec() is Ok && self.assembled().len() == 0 && self.length > 0 ==> r
                == Err::<String, GenerationError>(GenerationError::NoCandidates),
            self.validate_spec() is Ok && (self.assembled().len() > 0 || self.length == 0) ==> r
                is Ok,
            r is Ok ==> exists|buf: Seq<Seq<char>>|
                #[trigger] buffer_ok(*self, buf) && r->Ok_0@ == buf.flatten(),
            r is Ok && self.length == 0 ==> r->Ok_0@ == Seq::<char>::empty(),
    {
        let mut source = RandomSource::from_entropy();
        self.generate_with(&mut source)
    }
}

/// The running state of the overwrite phase: after the first `j`
/// classifiers have overwritten their share of the drawn positions,
/// `offset` positions are claimed, every claimed chunk holds entries of its
/// classifier's own pool, every other position still holds its original
/// entry, and a seeded source has followed the modelled draw sequence.
spec fn overwrite_inv(
    m: PasswordMaker,
    orig: Seq<String>,
    idxs: Seq<u32>,
    pw: Seq<String>,
    j: int,
    offset: int,
    key0: Option<u64>,
    trace: Seq<int>,
    h1: Seq<int>,
) -> bool {
    let cs = m.all_classifiers();
    &&& 0 <= j <= cs.len()
    &&& offset == sum_min(cs.take(j))
    &&& idxs.len() == m.total_min()
    &&& orig.len() <= u32::MAX
    &&& forall|t: int| 0 <= t < idxs.len() ==> (#[trigger] idxs[t]) < orig.len()
    &&& forall|t1: int, t2: int| 0 <= t1 < t2 < idxs.len() ==> idxs[t1] != idxs[t2]
    &&& pw.len() == orig.len()
    &&& forall|k: int, t: int|
        #![trigger cs[k], idxs[t]]
        0 <= k < j && sum_min(cs.take(k)) <= t < sum_min(cs.take(k)) + cs[k].minimum_count
            ==> cs[k].pool().contains(views_of(pw)[idxs[t] as int])
    &&& forall|p: int|
        0 <= p < pw.len() ==> (#[trigger] pw[p]) == orig[p] || from_minimum_pool(
            m,
            views_of(pw)[p],
        )
    &&& (key0 is Some ==> (views_of(pw), trace) == overwrite_rec(
        views_of(orig),
        idxs,
        cs,
        j,
        key0->Some_0,
        h1,
    ))
}

/// Copy the `cnt` drawn positions starting at `offset` out as indexes.
fn take_assigned(idxs: &Vec<u32>, offset: usize, cnt: usize) -> (r: Vec<usize>)
    requires
        offset + cnt <= idxs@.len(),
    ensures
        r@.len() == cnt,
        forall|t: int| 0 <= t < cnt ==> #[trigger] r@[t] == idxs@[offset + t] as usize,
        r@.map_values(|u: usize| u as int) == idxs@.subrange(
            offset as int,
            offset + cnt,
        ).map_values(|x: u32| x as int),
{
    let mut r: Vec<usize> = Vec::new();
    let n = idxs.len();
    let mut t: usize = 0;
    while t < cnt
        invariant
            t <= cnt,
            offset + cnt <= idxs@.len(),
            idxs@.len() <= usize::MAX,
            r@.len() == t,
            forall|u: int| 0 <= u < t ==> #[trigger] r@[u] == idxs@[offset + u] as usize,
        decreases cnt - t,
    {
        r.push(idxs[offset + t] as usize);
        t += 1;
    }
    proof {
        assert(r@.map_values(|u: usize| u as int) =~= idxs@.subrange(
            offset as int,
            offset + cnt,
        ).map_values(|x: u32| x as int));
    }
    r
}

impl PasswordMaker {
    /// Let the classifier at position `j` claim the next chunk of drawn
    /// positions and overwrite them from its own pool.
    #[verifier::rlimit(100)]
    fn overwrite_chunk(
        &self,
        password: &mut Vec<String>,
        classifier: &Classifier,
        idxs: &Vec<u32>,
        offset: usize,
        source: &mut RandomSource,
        Ghost(orig): Ghost<Seq<String>>,
        Ghost(j): Ghost<int>,
        Ghost(h1): Ghost<Seq<int>>,
    ) -> (new_offset: usize)
        requires
            0 <= j < self.all_classifiers().len(),
            *classifier == self.all_classifiers()[j],
            classifier.minimum_count > 0 ==> classifier.candidates@.len() > 0,
            self.total_min() <= u32::MAX,
            overwrite_inv(
                *self,
                orig,
                idxs@,
                old(password)@,
                j,
                offset as int,
                old(source).key(),
                old(source).trace(),
                h1,
            ),
        ensures
            new_offset == offset + classifier.minimum_count,
            final(source).key() == old(source).key(),
            overwrite_inv(
                *self,
                orig,
                idxs@,
                final(password)@,
                j + 1,
                new_offset as int,
                old(source).key(),
                final(source).trace(),
                h1,
            ),
    {
        let ghost cs = self.all_classifiers();
        let ghost key0 = source.key();
        let ghost pre = password@;
        proof {
            lemma_sum_min_take(cs, j);
            lemma_sum_min_prefix_mono(cs, j + 1, cs.len() as int);
            assert(cs.take(cs.len() as int) =~= cs);
            lemma_sum_min_nonneg(cs.take(j));
        }
        let cnt = classifier.minimum_count as usize;
        let assigned = take_assigned(idxs, offset, cnt);
        let ghost assigned_view = assigned@;
        proof {
            assert forall|t: int| 0 <= t < assigned_view.len() implies #[trigger] assigned_view[t]
                < pre.len() by {
                assert(assigned_view[t] == idxs@[offset + t] as usize);
                assert(idxs@[offset + t] < orig.len());
            }
        }
        self.replace_characters(password, classifier, assigned, source);
        proof {
            let post = password@;
            // The chunk just written, and every earlier chunk, hold entries
            // of their classifier's own pool.
            assert forall|k: int, t: int|
                0 <= k < j + 1 && sum_min(cs.take(k)) <= t < sum_min(cs.take(k))
                    + cs[k].minimum_count implies cs[k].pool().contains(
                views_of(post)[idxs@[t] as int],
            ) by {
                if k == j {
                    let u = t - offset;
                    assert(assigned_view[u] == idxs@[t] as usize);
                    assert(classifier.pool().contains(post[assigned_view[u] as int]@));
                    assert(views_of(post)[idxs@[t] as int] == post[idxs@[t] as int]@);
                } else {
                    let p32 = idxs@[t];
                    lemma_sum_min_nonneg(cs.take(k));
                    lemma_sum_min_take(cs, k);
                    lemma_sum_min_prefix_mono(cs, k + 1, j);
                    assert(t < sum_min(cs.take(k + 1)));
                    assert(t < offset);
                    assert(0 <= t < idxs@.len());
                    assert(!assigned_view.contains(p32 as usize)) by {
                        if assigned_view.contains(p32 as usize) {
                            let u = choose|u: int|
                                0 <= u < assigned_view.len() && assigned_view[u] == p32 as usize;
                            assert(assigned_view[u] == idxs@[offset + u] as usize);
                            assert(idxs@[offset + u] == idxs@[t]);
                        }
                    }
                    assert((p32 as int) < pre.len());
                    assert(!assigned_view.contains((p32 as int) as usize));
                    assert(post[p32 as int] == pre[p32 as int]);
                    assert(cs[k].pool().contains(views_of(pre)[idxs@[t] as int]));
                    assert(views_of(post)[p32 as int] == views_of(pre)[p32 as int]);
                }
            }
            // Every position still holds its original entry, or one from
            // the pool of a classifier with a positive minimum.
            assert forall|p: int| 0 <= p < post.len() implies (#[trigger] post[p]) == orig[p]
                || from_minimum_pool(*self, views_of(post)[p]) by {
                if post[p] == pre[p] {
                    assert(views_of(post)[p] == views_of(pre)[p]);
                    assert(pre[p] == orig[p] || from_minimum_pool(*self, views_of(pre)[p]));
                } else {
                    assert(assigned_view.contains(p as usize)) by {
                        if !assigned_view.contains(p as usize) {
                            assert(post[p] == pre[p]);
                        }
                    }
                    let u = choose|u: int|
                        0 <= u < assigned_view.len() && assigned_view[u] == p as usize;
                    assert(classifier.pool().contains(post[assigned_view[u] as int]@));
                    assert(cs[j].minimum_count > 0);
                    assert(0 <= j < cs.len() && cs[j].minimum_count > 0 && cs[j].pool().contains(
                        views_of(post)[p],
                    ));
                    assert(from_minimum_pool(*self, views_of(post)[p]));
                }
            }
            // A seeded source has followed the modelled sequence.
            if key0 is Some {
                assert(assigned_view.map_values(|u: usize| u as int) == idxs@.subrange(
                    offset as int,
                    offset + cnt,
                ).map_values(|x: u32| x as int));
                assert((views_of(post), source.trace()) == overwrite_rec(
                    views_of(orig),
                    idxs@,
                    cs,
                    j + 1,
                    key0->Some_0,
                    h1,
                ));
            }
        }
        offset + cnt
    }
}

impl PasswordMaker {
    /// Update the password buffer to meet the minimum count of every
    /// classifier: draw as many distinct positions as the minimums demand,
    /// uniformly and without replacement, partition them among the
    /// classifiers in fixed order, and overwrite each classifier's positions
    /// with entries drawn from its own pool. Positions left unclaimed keep
    /// their entries, so randomness is preserved elsewhere.
    #[verifier::rlimit(100)]
    pub fn overwrite_to_meet_minimum_count(
        &self,
        password: &mut Vec<String>,
        source: &mut RandomSource,
    )
        requires
            old(password)@.len() <= u32::MAX,
            self.total_min() <= old(password)@.len(),
            self.total_min() <= self.length,
            forall|k: int|
                0 <= k < self.all_classifiers().len() ==> ((#[trigger] self.all_classifiers()[k]).minimum_count
                    > 0 ==> self.all_classifiers()[k].candidates@.len() > 0),
        ensures
            final(password)@.len() == old(password)@.len(),
            meets_minimums(views_of(final(password)@), self.all_classifiers()),
            forall|p: int|
                0 <= p < old(password)@.len() ==> (#[trigger] final(password)@[p]) == old(
                    password,
                )@[p] || from_minimum_pool(*self, views_of(final(password)@)[p]),
            final(source).key() == old(source).key(),
            old(source).seeded() ==> (views_of(final(password)@), final(source).trace())
                == overwrite_full(
                *self,
                views_of(old(password)@),
                old(source).seed(),
                old(source).trace(),
            ),
    {
        let ghost cs = self.all_classifiers();
        let ghost orig = password@;
        let ghost key0 = source.key();
        let ghost h0 = source.trace();
        proof {
            lemma_sum_min_nonneg(cs);
        }
        let total = self.total_min_exec();
        let overwrite_count: usize = if (self.length as u128) < total {
            self.length as usize
        } else {
            total as usize
        };
        let idxs = self.unique_random_numbers(overwrite_count, 0..(password.len() as u32), source);
        let ghost h1 = source.trace();
        proof {
            assert(cs.take(0) =~= Seq::<Classifier>::empty());
            assert(cs.len() == 4 + self.others@.len());
            assert(cs[0] == self.uppercase);
            assert(cs[1] == self.lowercase);
            assert(cs[2] == self.number);
            assert(cs[3] == self.symbol);
            assert(overwrite_inv(*self, orig, idxs@, password@, 0, 0, key0, source.trace(), h1));
        }
        let mut offset: usize = 0;
        offset = self.overwrite_chunk(
            password,
            &self.uppercase,
            &idxs,
            offset,
            source,
            Ghost(orig),
            Ghost(0),
            Ghost(h1),
        );
        offset = self.overwrite_chunk(
            password,
            &self.lowercase,
            &idxs,
            offset,
            source,
            Ghost(orig),
            Ghost(1),
            Ghost(h1),
        );
        offset = self.overwrite_chunk(
            password,
            &self.number,
            &idxs,
            offset,
            source,
            Ghost(orig),
            Ghost(2),
            Ghost(h1),
        );
        offset = self.overwrite_chunk(
            password,
            &self.symbol,
            &idxs,
            offset,
            source,
            Ghost(orig),
            Ghost(3),
            Ghost(h1),
        );
        let mut jj: usize = 0;
        while jj < self.others.len()
            invariant
                0 <= jj <= self.others@.len(),
                cs == self.all_classifiers(),
                cs.len() == 4 + self.others@.len(),
                self.total_min() <= u32::MAX,
                forall|k: int|
                    0 <= k < cs.len() ==> ((#[trigger] cs[k]).minimum_count > 0
                        ==> cs[k].candidates@.len() > 0),
                source.key() == key0,
                overwrite_inv(
                    *self,
                    orig,
                    idxs@,
                    password@,
                    4 + jj as int,
                    offset as int,
                    key0,
                    source.trace(),
                    h1,
                ),
            decreases self.others@.len() - jj,
        {
            proof {
                assert(cs[4 + jj as int] == self.others@[jj as int]);
            }
            offset = self.overwrite_chunk(
                password,
                &self.others[jj],
                &idxs,
                offset,
                source,
                Ghost(orig),
                Ghost(4 + jj as int),
                Ghost(h1),
            );
            jj += 1;
        }
        proof {
            assert(4 + self.others@.len() as int == cs.len() as int);
            lemma_claimed_chunks_meet_minimums(
                *self,
                orig,
                idxs@,
                password@,
                offset as int,
                key0,
                source.trace(),
                h1,
            );
            if key0 is Some {
                assert((views_of(password@), source.trace()) == overwrite_full(
                    *self,
                    views_of(orig),
                    key0->Some_0,
                    h0,
                ));
            }
        }
    }
}

/// Once every classifier has overwritten its chunk of the distinct drawn
/// positions, each finds at least its minimum count of entries from its
/// own pool in the buffer.
proof fn lemma_claimed_chunks_meet_minimums(
    m: PasswordMaker,
    orig: Seq<String>,
    idxs: Seq<u32>,
    pw: Seq<String>,
    offset: int,
    key0: Option<u64>,
    trace: Seq<int>,
    h1: Seq<int>,
)
    requires
        overwrite_inv(m, orig, idxs, pw, m.all_classifiers().len() as int, offset, key0, trace, h1),
    ensures
        meets_minimums(views_of(pw), m.all_classifiers()),
{
    let cs = m.all_classifiers();
    let post = views_of(pw);
    assert forall|k: int| 0 <= k < cs.len() implies count_from(post, (#[trigger] cs[k]).pool())
        >= cs[k].minimum_count by {
        lemma_sum_min_nonneg(cs.take(k));
        lemma_sum_min_take(cs, k);
        lemma_sum_min_prefix_mono(cs, k + 1, cs.len() as int);
        assert(cs.take(cs.len() as int) =~= cs);
        let lo = sum_min(cs.take(k));
        let cnt = cs[k].minimum_count as int;
        let pos = Seq::new(cnt as nat, |t: int| idxs[lo + t] as int);
        assert forall|t: int| 0 <= t < pos.len() implies 0 <= #[trigger] pos[t] < post.len()
            && cs[k].pool().contains(post[pos[t]]) by {
            assert(idxs[lo + t] < orig.len());
            assert(cs[k].pool().contains(views_of(pw)[idxs[lo + t] as int]));
        }
        assert(pos.no_duplicates()) by {
            assert forall|t1: int, t2: int|
                0 <= t1 < pos.len() && 0 <= t2 < pos.len() && t1 != t2 implies pos[t1] != pos[t2] by {
                assert(idxs[lo + t1] != idxs[lo + t2]);
            }
        }
        lemma_count_from_positions(post, cs[k].pool(), pos);
    }
}

/// One single-character entry for each code in the inclusive ASCII range.
pub open spec fn ascii_pool(lo: u8, hi: u8) -> Seq<Seq<char>> {
    Seq::new((hi - lo + 1) as nat, |i: int| seq![((lo + i) as u8) as char])
}

/// Build the entries of `ascii_pool(lo, hi)` as strings.
fn ascii_pool_vec(lo: u8, hi: u8) -> (r: Vec<String>)
    requires
        lo <= hi < 255,
    ensures
        r@.map_values(|s: String| s@) == ascii_pool(lo, hi),
{
    let mut r: Vec<String> = Vec::new();
    let mut b: u8 = lo;
    while b <= hi
        invariant
            lo <= b,
            b <= hi + 1,
            hi < 255,
            r@.len() == b - lo,
            r@.map_values(|s: String| s@) == ascii_pool(lo, hi).take(b - lo),
        decreases hi + 1 - b,
    {
        r.push(char_string(b as char));
        proof {
            assert(r@.map_values(|s: String| s@) =~= ascii_pool(lo, hi).take(b + 1 - lo));
        }
        b += 1;
    }
    proof {
        assert(ascii_pool(lo, hi).take((hi - lo + 1) as int) =~= ascii_pool(lo, hi));
    }
    r
}

/// The default symbol pool: every ASCII punctuation character, in ascending
/// code order.
pub open spec fn default_symbol_pool() -> Seq<Seq<char>> {
    ascii_pool(0x21, 0x2f) + ascii_pool(0x3a, 0x40) + ascii_pool(0x5b, 0x60) + ascii_pool(
        0x7b,
        0x7e,
    )
}

impl Default for PasswordMaker {
    /// The default specification: sixteen characters, at least one character
    /// from each of the four named classifiers, no additional classifiers,
    /// similar characters kept, whitespace left out.
    fn default() -> (r: PasswordMaker)
        ensures
            r.length == 16,
            !r.exclude_similar,
            !r.include_whitespace_in_candidate,
            r.lowercase.pool() == ascii_pool(0x61, 0x7a),
            r.lowercase.minimum_count == 1,
            r.uppercase.pool() == ascii_pool(0x41, 0x5a),
            r.uppercase.minimum_count == 1,
            r.number.pool() == ascii_pool(0x30, 0x39),
            r.number.minimum_count == 1,
            r.symbol.pool() == default_symbol_pool(),
            r.symbol.minimum_count == 1,
            r.others@ == Seq::<Classifier>::empty(),
    {
        let mut symbols = ascii_pool_vec(0x21, 0x2f);
        append_all(&mut symbols, &ascii_pool_vec(0x3a, 0x40));
        append_all(&mut symbols, &ascii_pool_vec(0x5b, 0x60));
        append_all(&mut symbols, &ascii_pool_vec(0x7b, 0x7e));
        proof {
            assert(symbols@.map_values(|s: String| s@) =~= default_symbol_pool());
        }
        PasswordMaker {
            length: 16,
            exclude_similar: false,
            include_whitespace_in_candidate: false,
            lowercase: Classifier { candidates: ascii_pool_vec(0x61, 0x7a), minimum_count: 1 },
            uppercase: Classifier { candidates: ascii_pool_vec(0x41, 0x5a), minimum_count: 1 },
            number: Classifier { candidates: ascii_pool_vec(0x30, 0x39), minimum_count: 1 },
            symbol: Classifier { candidates: symbols, minimum_count: 1 },
            others: Vec::new(),
        }
    }
}

/// Position of the first classifier with an empty pool and a positive
/// minimum, if any.
pub open spec fn first_empty_with_min(cs: Seq<Classifier>) -> Option<int>
    decreases cs.len(),
{
    if cs.len() == 0 {
        None
    } else if cs[0].empty_with_min() {
        Some(0int)
    } else {
        match first_empty_with_min(cs.drop_first()) {
            None => None,
            Some(i) => Some(i + 1),
        }
    }
}

/// A scan that found no infeasible classifier before position `i`, and one
/// at `i` if `i` is in range, has found the first one.
proof fn lemma_first_empty_with_min_scan(cs: Seq<Classifier>, i: int)
    requires
        0 <= i <= cs.len(),
        forall|j: int| 0 <= j < i ==> !(#[trigger] cs[j]).empty_with_min(),
        i < cs.len() ==> cs[i].empty_with_min(),
    ensures
        first_empty_with_min(cs) == if i < cs.len() {
            Some(i)
        } else {
            None::<int>
        },
    decreases i,
{
    if i == 0 {
    } else {
        assert(!cs[0].empty_with_min());
        lemma_first_empty_with_min_scan(cs.drop_first(), i - 1);
    }
}

/// A specification that passed validation keeps its minimums within the
/// length, and offers candidates wherever a minimum is positive.
pub proof fn lemma_validate_ok_pools(m: PasswordMaker)
    requires
        m.validate_spec() is Ok,
    ensures
        m.total_min() <= m.length,
        forall|k: int|
            0 <= k < m.all_classifiers().len() ==> ((#[trigger] m.all_classifiers()[k]).minimum_count
                > 0 ==> m.all_classifiers()[k].candidates@.len() > 0),
{
    lemma_first_empty_with_min_props(m.others@);
    let cs = m.all_classifiers();
    assert forall|k: int|
        0 <= k < cs.len() implies ((#[trigger] cs[k]).minimum_count > 0 ==> cs[k].candidates@.len()
        > 0) by {
        if k >= 4 {
            assert(cs[k] == m.others@[k - 4]);
        }
    }
}

/// Validation succeeds exactly when no classifier demands characters from
/// an empty pool and the minimum counts together fit into the requested
/// length.
pub proof fn lemma_validate_iff_feasible(m: PasswordMaker)
    ensures
        m.validate_spec() is Ok <==> ((forall|k: int|
            0 <= k < m.all_classifiers().len() ==> !(#[trigger] m.all_classifiers()[k]).empty_with_min())
            && m.total_min() <= m.length),
{
    lemma_first_empty_with_min_props(m.others@);
    let cs = m.all_classifiers();
    if m.validate_spec() is Ok {
        lemma_validate_ok_pools(m);
        assert forall|k: int| 0 <= k < cs.len() implies !(#[trigger] cs[k]).empty_with_min() by {
            if k >= 4 {
                assert(cs[k] == m.others@[k - 4]);
            }
        }
    } else {
        if (forall|k: int| 0 <= k < cs.len() ==> !(#[trigger] cs[k]).empty_with_min())
            && m.total_min() <= m.length {
            match first_empty_with_min(m.others@) {
                Some(i) => {
                    assert(cs[4 + i] == m.others@[i]);
                    assert(!cs[4 + i].empty_with_min());
                },
                None => {
                    assert(cs[0] == m.uppercase);
                    assert(cs[1] == m.lowercase);
                    assert(cs[2] == m.number);
                    assert(cs[3] == m.symbol);
                },
            }
        }
    }
}

/// What the first-infeasible scan promises: either no classifier is
/// infeasible, or the reported one is, with none before it.
pub proof fn lemma_first_empty_with_min_props(cs: Seq<Classifier>)
    ensures
        match first_empty_with_min(cs) {
            None => forall|j: int| 0 <= j < cs.len() ==> !(#[trigger] cs[j]).empty_with_min(),
            Some(i) => 0 <= i < cs.len() && cs[i].empty_with_min() && forall|j: int|
                0 <= j < i ==> !(#[trigger] cs[j]).empty_with_min(),
        },
    decreases cs.len(),
{
    if cs.len() == 0 {
    } else if cs[0].empty_with_min() {
    } else {
        lemma_first_empty_with_min_props(cs.drop_first());
        assert(forall|j: int| 1 <= j < cs.len() ==> cs[j] == cs.drop_first()[j - 1]);
    }
}

} // verus!
