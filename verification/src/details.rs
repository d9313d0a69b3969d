//! The details-merge pipeline: people re-fetched with full detail are
//! sorted ascending by identifier, then adjacent entries sharing an
//! identifier are folded together with the field-wise merge, leaving one
//! entry per distinct identifier in sorted order.

use vstd::prelude::*;

use crate::merge::spec_merge_persons;
use crate::model::{Person, PersonView, persons_view};
use crate::strnum::{
    lemma_lex_le_antisym, lemma_lex_le_total, lemma_lex_le_trans, lex_le, str_eq, str_le,
};

verus! {

/// Inserts a person into a sorted run, after every entry whose identifier
/// is less than or equal to its own (the stable position).
pub open spec fn insert_sorted(s: Seq<PersonView>, p: PersonView) -> Seq<PersonView>
    decreases s.len(),
{
    if s.len() == 0 {
        seq![p]
    } else if lex_le(s.first().id, p.id) {
        seq![s.first()] + insert_sorted(s.drop_first(), p)
    } else {
        seq![p] + s
    }
}

/// The stable ascending sort by identifier.
pub open spec fn sort_by_id(s: Seq<PersonView>) -> Seq<PersonView>
    decreases s.len(),
{
    if s.len() == 0 {
        Seq::empty()
    } else {
        insert_sorted(sort_by_id(s.drop_last()), s.last())
    }
}

/// Folds a run of people, merging each entry into its predecessor when the
/// two share an identifier.
pub open spec fn fold_merge(s: Seq<PersonView>) -> Seq<PersonView>
    decreases s.len(),
{
    if s.len() == 0 {
        Seq::empty()
    } else {
        let rest = fold_merge(s.drop_last());
        if rest.len() > 0 && rest.last().id == s.last().id {
            rest.update(rest.len() - 1, spec_merge_persons(rest.last(), s.last()))
        } else {
            rest.push(s.last())
        }
    }
}

/// The whole pipeline: sort, then fold adjacent duplicates.
pub open spec fn spec_load_details(s: Seq<PersonView>) -> Seq<PersonView> {
    fold_merge(sort_by_id(s))
}

proof fn lemma_insert_sorted_at(s: Seq<PersonView>, p: PersonView, idx: int)
    requires
        0 <= idx <= s.len(),
        forall|k: int| 0 <= k < idx ==> lex_le((#[trigger] s[k]).id, p.id),
        idx < s.len() ==> !lex_le(s[idx].id, p.id),
    ensures
        insert_sorted(s, p) == s.take(idx) + seq![p] + s.skip(idx),
    decreases idx,
{
    if idx == 0 {
        if s.len() == 0 {
            assert(insert_sorted(s, p) =~= s.take(0) + seq![p] + s.skip(0));
        } else {
            assert(insert_sorted(s, p) =~= s.take(0) + seq![p] + s.skip(0));
        }
    } else {
        assert(lex_le(s[0].id, p.id));
        lemma_insert_sorted_at(s.drop_first(), p, idx - 1);
        assert(seq![s.first()] + (s.drop_first().take(idx - 1) + seq![p] + s.drop_first().skip(
            idx - 1,
        )) =~= s.take(idx) + seq![p] + s.skip(idx));
    }
}

/// Whether a run is sorted ascending by identifier.
pub open spec fn sorted_by_id(s: Seq<PersonView>) -> bool {
    forall|i: int, j: int|
        0 <= i < j < s.len() ==> lex_le((#[trigger] s[i]).id, (#[trigger] s[j]).id)
}

/// Whether a run's identifiers ascend strictly: sorted, with no identifier
/// appearing twice.
pub open spec fn strictly_sorted_by_id(s: Seq<PersonView>) -> bool {
    forall|i: int, j: int|
        0 <= i < j < s.len() ==> (lex_le((#[trigger] s[i]).id, (#[trigger] s[j]).id) && s[i].id
            != s[j].id)
}

proof fn lemma_insert_sorted_elems(s: Seq<PersonView>, p: PersonView)
    ensures
        insert_sorted(s, p).len() == s.len() + 1,
        forall|k: int|
            0 <= k < insert_sorted(s, p).len() ==> ((#[trigger] insert_sorted(s, p)[k]) == p
                || s.contains(insert_sorted(s, p)[k])),
    decreases s.len(),
{
    if s.len() > 0 && lex_le(s.first().id, p.id) {
        lemma_insert_sorted_elems(s.drop_first(), p);
        let r = insert_sorted(s, p);
        let rd = insert_sorted(s.drop_first(), p);
        assert forall|k: int| 0 <= k < r.len() implies (#[trigger] r[k]) == p || s.contains(
            r[k],
        ) by {
            if k == 0 {
                assert(r[0] == s[0]);
                assert(s.contains(s[0]));
            } else {
                assert(r[k] == rd[k - 1]);
                if rd[k - 1] == p {
                } else {
                    let w = choose|w: int|
                        0 <= w < s.drop_first().len() && s.drop_first()[w] == rd[k - 1];
                    assert(s[w + 1] == rd[k - 1]);
                }
            }
        }
    } else if s.len() > 0 {
        let r = insert_sorted(s, p);
        assert forall|k: int| 0 <= k < r.len() implies (#[trigger] r[k]) == p || s.contains(
            r[k],
        ) by {
            if k > 0 {
                assert(r[k] == s[k - 1]);
            }
        }
    }
}

proof fn lemma_insert_sorted_sorted(s: Seq<PersonView>, p: PersonView)
    requires
        sorted_by_id(s),
    ensures
        sorted_by_id(insert_sorted(s, p)),
    decreases s.len(),
{
    if s.len() == 0 {
    } else if lex_le(s.first().id, p.id) {
        assert forall|i: int, j: int| 0 <= i < j < s.drop_first().len() implies lex_le(
            (#[trigger] s.drop_first()[i]).id,
            (#[trigger] s.drop_first()[j]).id,
        ) by {
            assert(s.drop_first()[i] == s[i + 1]);
            assert(s.drop_first()[j] == s[j + 1]);
        }
        lemma_insert_sorted_sorted(s.drop_first(), p);
        lemma_insert_sorted_elems(s.drop_first(), p);
        let r = insert_sorted(s, p);
        let rd = insert_sorted(s.drop_first(), p);
        assert forall|i: int, j: int| 0 <= i < j < r.len() implies lex_le(
            (#[trigger] r[i]).id,
            (#[trigger] r[j]).id,
        ) by {
            if i == 0 {
                assert(r[0] == s[0]);
                assert(r[j] == rd[j - 1]);
                if rd[j - 1] == p {
                } else {
                    let w = choose|w: int|
                        0 <= w < s.drop_first().len() && s.drop_first()[w] == rd[j - 1];
                    assert(s[w + 1] == rd[j - 1]);
                    assert(lex_le(s[0].id, s[w + 1].id));
                }
            } else {
                assert(r[i] == rd[i - 1]);
                assert(r[j] == rd[j - 1]);
            }
        }
    } else {
        lemma_lex_le_total(s.first().id, p.id);
        let r = insert_sorted(s, p);
        assert forall|i: int, j: int| 0 <= i < j < r.len() implies lex_le(
            (#[trigger] r[i]).id,
            (#[trigger] r[j]).id,
        ) by {
            if i == 0 {
                assert(r[j] == s[j - 1]);
                if j > 1 {
                    assert(lex_le(s[0].id, s[j - 1].id));
                    lemma_lex_le_trans(p.id, s[0].id, s[j - 1].id);
                }
            } else {
                assert(r[i] == s[i - 1]);
                assert(r[j] == s[j - 1]);
            }
        }
    }
}

proof fn lemma_sort_by_id_sorted(s: Seq<PersonView>)
    ensures
        sorted_by_id(sort_by_id(s)),
        sort_by_id(s).len() == s.len(),
    decreases s.len(),
{
    if s.len() > 0 {
        lemma_sort_by_id_sorted(s.drop_last());
        lemma_insert_sorted_sorted(sort_by_id(s.drop_last()), s.last());
        lemma_insert_sorted_elems(sort_by_id(s.drop_last()), s.last());
    }
}

proof fn lemma_fold_merge_strict(s: Seq<PersonView>)
    requires
        sorted_by_id(s),
    ensures
        strictly_sorted_by_id(fold_merge(s)),
        fold_merge(s).len() == 0 <==> s.len() == 0,
        s.len() > 0 ==> fold_merge(s).last().id == s.last().id,
    decreases s.len(),
{
    if s.len() > 0 {
        assert forall|i: int, j: int| 0 <= i < j < s.drop_last().len() implies lex_le(
            (#[trigger] s.drop_last()[i]).id,
            (#[trigger] s.drop_last()[j]).id,
        ) by {
            assert(s.drop_last()[i] == s[i]);
            assert(s.drop_last()[j] == s[j]);
        }
        lemma_fold_merge_strict(s.drop_last());
        let rest = fold_merge(s.drop_last());
        let r = fold_merge(s);
        if rest.len() > 0 && rest.last().id == s.last().id {
            assert(spec_merge_persons(rest.last(), s.last()).id == rest.last().id);
            assert forall|i: int, j: int| 0 <= i < j < r.len() implies (lex_le(
                (#[trigger] r[i]).id,
                (#[trigger] r[j]).id,
            ) && r[i].id != r[j].id) by {
                assert(r[i].id == rest[i].id);
                assert(r[j].id == rest[j].id);
            }
            assert(r.last().id == s.last().id);
        } else if rest.len() > 0 {
            let prev = s.drop_last();
            assert(prev.len() > 0);
            assert(rest.last().id == prev.last().id);
            assert(prev.last() == s[s.len() - 2]);
            assert(lex_le(s[s.len() - 2].id, s.last().id));
            assert forall|i: int, j: int| 0 <= i < j < r.len() implies (lex_le(
                (#[trigger] r[i]).id,
                (#[trigger] r[j]).id,
            ) && r[i].id != r[j].id) by {
                if j < r.len() - 1 {
                    assert(r[i] == rest[i]);
                    assert(r[j] == rest[j]);
                } else {
                    assert(r[i] == rest[i]);
                    assert(r[j] == s.last());
                    if i < rest.len() - 1 {
                        assert(lex_le(rest[i].id, rest.last().id));
                        lemma_lex_le_trans(rest[i].id, rest.last().id, s.last().id);
                        if rest[i].id == s.last().id {
                            lemma_lex_le_antisym(rest[i].id, rest.last().id);
                        }
                    }
                }
            }
        } else {
        }
    }
}

/// The details pipeline leaves one entry per distinct identifier, in
/// ascending identifier order: its result is strictly sorted by identifier.
pub proof fn lemma_load_details_distinct_sorted(s: Seq<PersonView>)
    ensures
        strictly_sorted_by_id(spec_load_details(s)),
{
    lemma_sort_by_id_sorted(s);
    lemma_fold_merge_strict(sort_by_id(s));
}

/// Sorts people ascending by identifier, stably.
pub fn sort_people_by_id(people: Vec<Person>) -> (out: Vec<Person>)
    ensures
        persons_view(out@) == sort_by_id(persons_view(people@)),
{
    let ghost orig = persons_view(people@);
    let mut rest = people;
    let mut out: Vec<Person> = Vec::new();
    let ghost mut done: int = 0;
    while rest.len() > 0
        invariant
            0 <= done <= orig.len(),
            orig == persons_view(people@),
            persons_view(rest@) == orig.skip(done),
            persons_view(out@) == sort_by_id(orig.take(done)),
            rest@.len() == orig.len() - done,
        decreases rest@.len(),
    {
        let ghost before_rest = rest@;
        let p = rest.remove(0);
        proof {
            assert(p@ == persons_view(before_rest)[0]);
            assert(p@ == orig[done]);
            assert forall|k: int| 0 <= k < rest@.len() implies persons_view(rest@)[k] == orig.skip(
                done + 1,
            )[k] by {
                assert(rest@[k] == before_rest[k + 1]);
                assert(persons_view(before_rest)[k + 1] == orig.skip(done)[k + 1]);
                assert(persons_view(rest@)[k] == rest@[k]@);
            }
            assert(persons_view(rest@) =~= orig.skip(done + 1));
        }
        let mut idx: usize = 0;
        while idx < out.len() && str_le(out[idx].id.as_str(), p.id.as_str())
            invariant
                idx <= out@.len(),
                forall|k: int|
                    0 <= k < idx ==> lex_le((#[trigger] persons_view(out@)[k]).id, p@.id),
            decreases out@.len() - idx,
        {
            proof {
                assert(persons_view(out@)[idx as int].id == out@[idx as int]@.id);
            }
            idx = idx + 1;
        }
        proof {
            if idx < out.len() {
                assert(persons_view(out@)[idx as int].id == out@[idx as int]@.id);
            }
            lemma_insert_sorted_at(persons_view(out@), p@, idx as int);
        }
        let ghost before = persons_view(out@);
        out.insert(idx, p);
        proof {
            assert(persons_view(out@) =~= before.take(idx as int) + seq![p@] + before.skip(
                idx as int,
            ));
            assert(orig.take(done + 1).drop_last() =~= orig.take(done));
            assert(orig.take(done + 1).last() == orig[done]);
            done = done + 1;
        }
    }
    proof {
        assert(orig.take(done) =~= orig);
    }
    out
}

/// Folds a sorted run, merging adjacent entries that share an identifier.
pub fn fold_adjacent_by_id(sorted: Vec<Person>) -> (out: Vec<Person>)
    ensures
        persons_view(out@) == fold_merge(persons_view(sorted@)),
{
    let ghost whole = persons_view(sorted@);
    let mut out: Vec<Person> = Vec::new();
    let mut i: usize = 0;
    while i < sorted.len()
        invariant
            i <= sorted@.len(),
            whole == persons_view(sorted@),
            whole.len() == sorted@.len(),
            persons_view(out@) == fold_merge(whole.take(i as int)),
        decreases sorted@.len() - i,
    {
        let p = sorted[i].clone();
        proof {
            assert(p@ == whole[i as int]);
            assert(whole.take(i as int + 1).drop_last() =~= whole.take(i as int));
            assert(whole.take(i as int + 1).last() == whole[i as int]);
        }
        let olen = out.len();
        if olen > 0 && str_eq(out[olen - 1].id.as_str(), p.id.as_str()) {
            proof {
                assert(persons_view(out@)[olen - 1].id == out@[olen - 1]@.id);
            }
            let mut last = out.pop().unwrap();
            last.merge_persons(p);
            out.push(last);
            proof {
                assert(persons_view(out@) =~= fold_merge(whole.take(i as int)).update(
                    olen - 1,
                    spec_merge_persons(fold_merge(whole.take(i as int)).last(), whole[i as int]),
                ));
            }
        } else {
            out.push(p);
            proof {
                assert(persons_view(out@) =~= fold_merge(whole.take(i as int)).push(
                    whole[i as int],
                ));
            }
        }
        i = i + 1;
    }
    proof {
        assert(whole.take(whole.len() as int) =~= whole);
    }
    out
}

} // verus!
