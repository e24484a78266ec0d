use vstd::prelude::*;

use crate::error::RecipeError;
use crate::ingredients::{copy_name, identity, Ingredient, IngredientView};

verus! {

/// The views of a sequence of stacks.
pub open spec fn views<T: Ingredient>(s: Seq<T>) -> Seq<IngredientView> {
    s.map_values(|x: T| x@)
}

/// Every stack of `s` has an identity.
pub open spec fn identified(s: Seq<IngredientView>) -> bool {
    forall|i: int| 0 <= i < s.len() ==> (#[trigger] identity(s[i])) is Some
}

/// Sum of all amounts in `s`.
pub open spec fn sum_amounts(s: Seq<IngredientView>) -> nat
    decreases s.len(),
{
    if s.len() == 0 {
        0
    } else {
        sum_amounts(s.drop_last()) + s.last().amount
    }
}

/// Sum of the amounts in `s` of the stacks whose identity is `id`.
pub open spec fn total(s: Seq<IngredientView>, id: Seq<char>) -> nat
    decreases s.len(),
{
    if s.len() == 0 {
        0
    } else {
        total(s.drop_last(), id) + if identity(s.last()) == Some(id) {
            s.last().amount
        } else {
            0
        }
    }
}

/// Some stack of `s` has identity `id`.
pub open spec fn present(s: Seq<IngredientView>, id: Seq<char>) -> bool {
    exists|i: int| 0 <= i < s.len() && identity(s[i]) == Some(id)
}

/// The identities of `s` with their summed amounts.
pub open spec fn tally(s: Seq<IngredientView>) -> Map<Seq<char>, nat> {
    Map::new(|id: Seq<char>| present(s, id), |id: Seq<char>| total(s, id))
}

/// The first position at or after `j` whose entry is keyed by `id`, or -1.
pub open spec fn slot_from(acc: Seq<IngredientView>, id: Seq<char>, j: int) -> int
    decreases acc.len() - j,
{
    if j < 0 || j >= acc.len() {
        -1
    } else if acc[j].unlocalized_name == Some(id) {
        j
    } else {
        slot_from(acc, id, j + 1)
    }
}

/// Folds one stack into an aggregate: its amount is added to the entry of
/// its identity, or a new entry is appended. An entry keeps the first
/// localized name seen for its identity.
pub open spec fn absorb(acc: Seq<IngredientView>, x: IngredientView) -> Seq<IngredientView> {
    let id = identity(x).unwrap();
    let k = slot_from(acc, id, 0);
    if k >= 0 {
        acc.update(
            k,
            IngredientView {
                amount: acc[k].amount + x.amount,
                unlocalized_name: Some(id),
                localized_name: if acc[k].localized_name is Some {
                    acc[k].localized_name
                } else {
                    x.localized_name
                },
            },
        )
    } else {
        acc.push(
            IngredientView { amount: x.amount, unlocalized_name: Some(id), localized_name: x.localized_name },
        )
    }
}

/// The aggregate of `s`: one entry per identity, in order of first
/// appearance, holding the summed amount.
pub open spec fn aggregate(s: Seq<IngredientView>) -> Seq<IngredientView>
    decreases s.len(),
{
    if s.len() == 0 {
        Seq::empty()
    } else {
        absorb(aggregate(s.drop_last()), s.last())
    }
}

/// Every entry is keyed by its unlocalized name, and no two entries share a key.
pub open spec fn keyed(acc: Seq<IngredientView>) -> bool {
    &&& forall|i: int| 0 <= i < acc.len() ==> (#[trigger] acc[i]).unlocalized_name is Some
    &&& forall|i: int, j: int|
        0 <= i < acc.len() && 0 <= j < acc.len() && i != j ==> (#[trigger] acc[i]).unlocalized_name
            != (#[trigger] acc[j]).unlocalized_name
}

proof fn lemma_slot_from(acc: Seq<IngredientView>, id: Seq<char>, j: int)
    requires
        0 <= j,
    ensures
        slot_from(acc, id, j) == -1 || (j <= slot_from(acc, id, j) < acc.len()
            && acc[slot_from(acc, id, j)].unlocalized_name == Some(id)),
        slot_from(acc, id, j) == -1 ==> forall|i: int|
            j <= i < acc.len() ==> acc[i].unlocalized_name != Some(id),
    decreases acc.len() - j,
{
    if j < acc.len() && acc[j].unlocalized_name != Some(id) {
        lemma_slot_from(acc, id, j + 1);
    }
}

proof fn lemma_total_update(s: Seq<IngredientView>, k: int, v: IngredientView, id: Seq<char>)
    requires
        0 <= k < s.len(),
    ensures
        total(s.update(k, v), id) + (if identity(s[k]) == Some(id) { s[k].amount } else { 0 })
            == total(s, id) + (if identity(v) == Some(id) { v.amount } else { 0 }),
    decreases s.len(),
{
    let t = s.update(k, v);
    if k < s.len() - 1 {
        assert(t.drop_last() =~= s.drop_last().update(k, v));
        lemma_total_update(s.drop_last(), k, v, id);
    } else {
        assert(t.drop_last() =~= s.drop_last());
    }
}

proof fn lemma_sum_update(s: Seq<IngredientView>, k: int, v: IngredientView)
    requires
        0 <= k < s.len(),
    ensures
        sum_amounts(s.update(k, v)) + s[k].amount == sum_amounts(s) + v.amount,
    decreases s.len(),
{
    let t = s.update(k, v);
    if k < s.len() - 1 {
        assert(t.drop_last() =~= s.drop_last().update(k, v));
        lemma_sum_update(s.drop_last(), k, v);
    } else {
        assert(t.drop_last() =~= s.drop_last());
    }
}

/// Each entry's amount is part of the sum.
proof fn lemma_entry_le_sum(s: Seq<IngredientView>, k: int)
    requires
        0 <= k < s.len(),
    ensures
        s[k].amount <= sum_amounts(s),
    decreases s.len(),
{
    if k < s.len() - 1 {
        lemma_entry_le_sum(s.drop_last(), k);
    }
}

/// Folding a stack into a keyed aggregate keeps it keyed and adds the
/// stack's amount to the total of its identity.
proof fn lemma_absorb(acc: Seq<IngredientView>, x: IngredientView)
    requires
        keyed(acc),
        identity(x) is Some,
    ensures
        keyed(absorb(acc, x)),
        sum_amounts(absorb(acc, x)) == sum_amounts(acc) + x.amount,
        forall|id: Seq<char>|
            #![trigger total(absorb(acc, x), id)]
            total(absorb(acc, x), id) == total(acc, id) + if identity(x) == Some(id) {
                x.amount
            } else {
                0
            },
        forall|id: Seq<char>|
            #![trigger present(absorb(acc, x), id)]
            present(absorb(acc, x), id) <==> (present(acc, id) || identity(x) == Some(id)),
{
    let id = identity(x).unwrap();
    let k = slot_from(acc, id, 0);
    let r = absorb(acc, x);
    lemma_slot_from(acc, id, 0);
    if k >= 0 {
        let v = r[k];
        lemma_sum_update(acc, k, v);
        assert forall|i: int, j: int|
            0 <= i < r.len() && 0 <= j < r.len() && i != j implies (#[trigger] r[i]).unlocalized_name
            != (#[trigger] r[j]).unlocalized_name by {
            if i != k && j != k {
                assert(acc[i].unlocalized_name != acc[j].unlocalized_name);
            } else if i == k {
                assert(acc[j].unlocalized_name != acc[k].unlocalized_name);
            } else {
                assert(acc[i].unlocalized_name != acc[k].unlocalized_name);
            }
        }
        assert forall|i: int| 0 <= i < r.len() implies (#[trigger] r[i]).unlocalized_name is Some by {
            if i != k {
                assert(r[i] == acc[i]);
            }
        }
        assert forall|id2: Seq<char>|
            #![trigger total(absorb(acc, x), id2)]
            total(absorb(acc, x), id2) == total(acc, id2) + if identity(x) == Some(id2) {
                x.amount
            } else {
                0
            } by {
            lemma_total_update(acc, k, v, id2);
        }
        assert forall|id2: Seq<char>|
            #![trigger present(absorb(acc, x), id2)]
            present(absorb(acc, x), id2) <==> (present(acc, id2) || identity(x) == Some(id2)) by {
            if present(acc, id2) {
                let i = choose|i: int| 0 <= i < acc.len() && identity(acc[i]) == Some(id2);
                assert(acc[i].unlocalized_name is Some);
                assert(identity(r[i]) == Some(id2));
            }
            if identity(x) == Some(id2) {
                assert(identity(r[k]) == Some(id2));
            }
            if present(r, id2) {
                let i = choose|i: int| 0 <= i < r.len() && identity(r[i]) == Some(id2);
                if i != k {
                    assert(r[i] == acc[i]);
                } else {
                    assert(acc[k].unlocalized_name is Some);
                }
            }
        }
    } else {
        assert(r.drop_last() =~= acc);
        assert forall|i: int, j: int|
            0 <= i < r.len() && 0 <= j < r.len() && i != j implies (#[trigger] r[i]).unlocalized_name
            != (#[trigger] r[j]).unlocalized_name by {
            if i < acc.len() && j < acc.len() {
                assert(r[i] == acc[i] && r[j] == acc[j]);
            } else if i < acc.len() {
                assert(r[i] == acc[i]);
            } else {
                assert(r[j] == acc[j]);
            }
        }
        assert forall|i: int| 0 <= i < r.len() implies (#[trigger] r[i]).unlocalized_name is Some by {
            if i < acc.len() {
                assert(r[i] == acc[i]);
            }
        }
        assert forall|id2: Seq<char>|
            #![trigger present(absorb(acc, x), id2)]
            present(absorb(acc, x), id2) <==> (present(acc, id2) || identity(x) == Some(id2)) by {
            if present(acc, id2) {
                let i = choose|i: int| 0 <= i < acc.len() && identity(acc[i]) == Some(id2);
                assert(r[i] == acc[i]);
            }
            if identity(x) == Some(id2) {
                assert(identity(r[acc.len() as int]) == Some(id2));
            }
            if present(r, id2) {
                let i = choose|i: int| 0 <= i < r.len() && identity(r[i]) == Some(id2);
                if i < acc.len() {
                    assert(r[i] == acc[i]);
                }
            }
        }
    }
}

/// An aggregate is keyed, keeps the sum of amounts, and holds for each
/// identity exactly the total of that identity.
pub proof fn lemma_aggregate(s: Seq<IngredientView>)
    requires
        identified(s),
    ensures
        keyed(aggregate(s)),
        identified(aggregate(s)),
        sum_amounts(aggregate(s)) == sum_amounts(s),
        forall|id: Seq<char>| #[trigger] total(aggregate(s), id) == total(s, id),
        forall|id: Seq<char>| #[trigger] present(aggregate(s), id) <==> present(s, id),
    decreases s.len(),
{
    if s.len() > 0 {
        let d = s.drop_last();
        assert(identified(d)) by {
            assert forall|i: int| 0 <= i < d.len() implies (#[trigger] identity(d[i])) is Some by {
                assert(d[i] == s[i]);
            }
        }
        assert(identity(s[s.len() - 1]) is Some);
        lemma_aggregate(d);
        lemma_absorb(aggregate(d), s.last());
        assert forall|id: Seq<char>| #[trigger] present(aggregate(s), id) <==> present(s, id) by {
            if present(d, id) {
                let i = choose|i: int| 0 <= i < d.len() && identity(d[i]) == Some(id);
                assert(s[i] == d[i]);
            }
            if present(s, id) {
                let i = choose|i: int| 0 <= i < s.len() && identity(s[i]) == Some(id);
                if i < d.len() {
                    assert(s[i] == d[i]);
                }
            }
        }
    }
    let a = aggregate(s);
    assert forall|i: int| 0 <= i < a.len() implies (#[trigger] identity(a[i])) is Some by {
        assert(a[i].unlocalized_name is Some);
    }
}

/// Splitting a sequence splits each total.
pub proof fn lemma_total_add(a: Seq<IngredientView>, b: Seq<IngredientView>, id: Seq<char>)
    ensures
        total(a + b, id) == total(a, id) + total(b, id),
    decreases b.len(),
{
    if b.len() > 0 {
        assert((a + b).drop_last() =~= a + b.drop_last());
        lemma_total_add(a, b.drop_last(), id);
    } else {
        assert(a + b =~= a);
    }
}

/// Splitting a sequence splits the sum of its amounts.
pub proof fn lemma_sum_add(a: Seq<IngredientView>, b: Seq<IngredientView>)
    ensures
        sum_amounts(a + b) == sum_amounts(a) + sum_amounts(b),
    decreases b.len(),
{
    if b.len() > 0 {
        assert((a + b).drop_last() =~= a + b.drop_last());
        lemma_sum_add(a, b.drop_last());
    } else {
        assert(a + b =~= a);
    }
}

/// An identity is present in a concatenation when it is in either part.
pub proof fn lemma_present_add(a: Seq<IngredientView>, b: Seq<IngredientView>, id: Seq<char>)
    ensures
        present(a + b, id) <==> (present(a, id) || present(b, id)),
{
    if present(a, id) {
        let i = choose|i: int| 0 <= i < a.len() && identity(a[i]) == Some(id);
        assert((a + b)[i] == a[i]);
    }
    if present(b, id) {
        let i = choose|i: int| 0 <= i < b.len() && identity(b[i]) == Some(id);
        assert((a + b)[a.len() + i] == b[i]);
    }
    if present(a + b, id) {
        let i = choose|i: int| 0 <= i < (a + b).len() && identity((a + b)[i]) == Some(id);
        if i < a.len() {
            assert((a + b)[i] == a[i]);
        } else {
            assert((a + b)[i] == b[i - a.len()]);
        }
    }
}

/// Both parts of an identified concatenation are identified, and conversely.
pub proof fn lemma_identified_add(a: Seq<IngredientView>, b: Seq<IngredientView>)
    ensures
        identified(a + b) <==> (identified(a) && identified(b)),
{
    if identified(a + b) {
        assert forall|i: int| 0 <= i < a.len() implies (#[trigger] identity(a[i])) is Some by {
            assert((a + b)[i] == a[i]);
        }
        assert forall|i: int| 0 <= i < b.len() implies (#[trigger] identity(b[i])) is Some by {
            assert((a + b)[a.len() + i] == b[i]);
        }
    }
    if identified(a) && identified(b) {
        assert forall|i: int| 0 <= i < (a + b).len() implies (#[trigger] identity((a + b)[i])) is Some by {
            if i < a.len() {
                assert((a + b)[i] == a[i]);
            } else {
                assert((a + b)[i] == b[i - a.len()]);
            }
        }
    }
}

/// Aggregation does not depend on how the stacks are split into lists nor
/// on the order of the lists: aggregating `a` then `b`, `b` then `a`, or the
/// two separate aggregates of `a` and `b` gives the same identities with the
/// same amounts.
pub proof fn law_combine_commutes(a: Seq<IngredientView>, b: Seq<IngredientView>)
    requires
        identified(a),
        identified(b),
    ensures
        tally(aggregate(a + b)) == tally(aggregate(b + a)),
        tally(aggregate(a + b)) == tally(aggregate(aggregate(a) + aggregate(b))),
{
    lemma_identified_add(a, b);
    lemma_identified_add(b, a);
    lemma_aggregate(a);
    lemma_aggregate(b);
    lemma_aggregate(a + b);
    lemma_aggregate(b + a);
    let m = aggregate(a) + aggregate(b);
    lemma_identified_add(aggregate(a), aggregate(b));
    lemma_aggregate(m);
    assert forall|id: Seq<char>|
        #![trigger tally(aggregate(a + b)).contains_key(id)]
        #![trigger tally(aggregate(b + a)).contains_key(id)]
        #![trigger tally(aggregate(m)).contains_key(id)]
        (tally(aggregate(a + b)).contains_key(id) <==> tally(aggregate(b + a)).contains_key(id))
        && (tally(aggregate(a + b)).contains_key(id) <==> tally(aggregate(m)).contains_key(id))
        && total(aggregate(a + b), id) == total(aggregate(b + a), id)
        && total(aggregate(a + b), id) == total(aggregate(m), id) by {
        lemma_total_add(a, b, id);
        lemma_total_add(b, a, id);
        lemma_total_add(aggregate(a), aggregate(b), id);
        lemma_present_add(a, b, id);
        lemma_present_add(b, a, id);
        lemma_present_add(aggregate(a), aggregate(b), id);
    }
    assert(tally(aggregate(a + b)) =~= tally(aggregate(b + a)));
    assert(tally(aggregate(a + b)) =~= tally(aggregate(m)));
}

/// The concatenation of the views of several lists.
pub open spec fn flatten<T: Ingredient>(lists: Seq<Vec<T>>) -> Seq<IngredientView>
    decreases lists.len(),
{
    if lists.len() == 0 {
        Seq::empty()
    } else {
        flatten(lists.drop_last()) + views(lists.last()@)
    }
}

proof fn lemma_slot_skip(acc: Seq<IngredientView>, id: Seq<char>, j: int)
    requires
        0 <= j <= acc.len(),
        forall|i: int| 0 <= i < j ==> acc[i].unlocalized_name != Some(id),
    ensures
        slot_from(acc, id, 0) == slot_from(acc, id, j),
    decreases j,
{
    if j > 0 {
        lemma_slot_skip(acc, id, j - 1);
    }
}

/// The identity of a stack, or the error of a stack that has none.
pub(crate) fn identity_of<T: Ingredient>(x: &T) -> (r: Result<&String, RecipeError>)
    ensures
        identity(x@) is Some <==> r is Ok,
        r is Ok ==> Some(r->Ok_0@) == identity(x@),
        r is Err ==> r == Err::<&String, RecipeError>(RecipeError::MissingIdentity),
{
    match x.unlocalized() {
        Some(n) => Ok(n),
        None => match x.localized() {
            Some(n) => Ok(n),
            None => Err(RecipeError::MissingIdentity),
        },
    }
}

/// Folds one stack into the aggregate `acc`.
fn absorb_one<T: Ingredient>(acc: &mut Vec<T>, x: &T, id: &String)
    requires
        keyed(views(old(acc)@)),
        identity(x@) == Some(id@),
        sum_amounts(views(old(acc)@)) + x@.amount <= usize::MAX,
    ensures
        views(final(acc)@) == absorb(views(old(acc)@), x@),
{
    let ghost a = views(acc@);
    let mut j: usize = 0;
    let mut found = false;
    while !found && j < acc.len()
        invariant
            a == views(acc@),
            0 <= j <= acc.len(),
            forall|i: int| 0 <= i < j ==> a[i].unlocalized_name != Some(id@),
            found ==> j < acc.len() && a[j as int].unlocalized_name == Some(id@),
        decreases acc.len() - j + if found { 0int } else { 1 },
    {
        let hit = match acc[j].unlocalized() {
            Some(n) => *n == *id,
            None => false,
        };
        if hit {
            found = true;
        } else {
            j = j + 1;
        }
    }
    proof {
        lemma_slot_skip(a, id@, j as int);
    }
    if found {
        proof {
            lemma_entry_le_sum(a, j as int);
        }
        let amount = acc[j].quantity() + x.quantity();
        let localized = if acc[j].localized().is_some() {
            copy_name(acc[j].localized())
        } else {
            copy_name(x.localized())
        };
        let entry = T::assemble(amount, Some(id.clone()), localized);
        let ghost old_acc = acc@;
        acc.set(j, entry);
        proof {
            assert(slot_from(a, id@, j as int) == j);
            assert(identity(x@).unwrap() == id@);
            let k = j as int;
            assert(views(acc@)[k] == absorb(a, x@)[k]);
            assert forall|i: int| 0 <= i < a.len() implies views(acc@)[i] == absorb(a, x@)[i] by {
                if i != k {
                    assert(acc@[i] == old_acc[i]);
                }
            }
            assert(views(acc@) =~= absorb(a, x@));
        }
    } else {
        proof {
            lemma_slot_from(a, id@, j as int);
        }
        let entry = T::assemble(x.quantity(), Some(id.clone()), copy_name(x.localized()));
        let ghost old_acc = acc@;
        acc.push(entry);
        proof {
            assert(slot_from(a, id@, j as int) == -1);
            assert forall|i: int| 0 <= i < a.len() implies views(acc@)[i] == absorb(a, x@)[i] by {
                assert(acc@[i] == old_acc[i]);
            }
            assert(views(acc@) =~= absorb(a, x@));
        }
    }
}

/// Folds every stack of `list`, in order, into the aggregate `acc` of `pre`.
pub(crate) fn absorb_list<T: Ingredient>(acc: &mut Vec<T>, list: &Vec<T>, Ghost(pre): Ghost<Seq<IngredientView>>) -> (r:
    Result<(), RecipeError>)
    requires
        identified(pre),
        views(old(acc)@) == aggregate(pre),
        sum_amounts(pre + views(list@)) <= usize::MAX,
    ensures
        r is Err <==> !identified(views(list@)),
        r is Err ==> r == Err::<(), RecipeError>(RecipeError::MissingIdentity),
        r is Ok ==> views(final(acc)@) == aggregate(pre + views(list@)),
{
    let ghost vl = views(list@);
    let mut i: usize = 0;
    while i < list.len()
        invariant
            vl == views(list@),
            0 <= i <= list.len(),
            identified(pre),
            sum_amounts(pre + vl) <= usize::MAX,
            forall|k: int| 0 <= k < i ==> (#[trigger] identity(vl[k])) is Some,
            views(acc@) == aggregate(pre + vl.take(i as int)),
        decreases list.len() - i,
    {
        let x = &list[i];
        let id = match identity_of(x) {
            Ok(n) => n,
            Err(e) => {
                proof {
                    assert(vl[i as int] == x@);
                    assert(identity(vl[i as int]) is None);
                }
                return Err(e);
            },
        };
        let ghost before = pre + vl.take(i as int);
        let ghost after = pre + vl.take(i as int + 1);
        proof {
            assert(after.drop_last() =~= before);
            assert(after.last() == x@);
            assert(identified(vl.take(i as int))) by {
                assert forall|k: int| 0 <= k < i implies #[trigger] identity(vl.take(i as int)[k]) is Some by {
                    assert(vl.take(i as int)[k] == vl[k]);
                }
            }
            lemma_identified_add(pre, vl.take(i as int));
            lemma_aggregate(before);
            assert(vl =~= vl.take(i as int + 1) + vl.skip(i as int + 1));
            assert(pre + vl =~= after + vl.skip(i as int + 1));
            lemma_sum_add(after, vl.skip(i as int + 1));
            lemma_sum_add(before, seq![x@]);
            assert(before + seq![x@] =~= after);
        }
        absorb_one(acc, x, id);
        i = i + 1;
    }
    proof {
        assert(vl.take(i as int) =~= vl);
    }
    Ok(())
}

/// Aggregates several lists of stacks into one: an entry per identity, in
/// order of first appearance, keyed by that identity as its unlocalized name,
/// holding the summed amount and the first localized name seen for it.
pub fn combine<T: Ingredient>(lists: &Vec<Vec<T>>) -> (r: Result<Vec<T>, RecipeError>)
    requires
        sum_amounts(flatten(lists@)) <= usize::MAX,
    ensures
        r is Err <==> !identified(flatten(lists@)),
        r is Err ==> r == Err::<Vec<T>, RecipeError>(RecipeError::MissingIdentity),
        r is Ok ==> views(r->Ok_0@) == aggregate(flatten(lists@)),
        r is Ok ==> keyed(views(r->Ok_0@)),
        r is Ok ==> tally(views(r->Ok_0@)) == tally(flatten(lists@)),
{
    let mut acc: Vec<T> = Vec::new();
    let mut i: usize = 0;
    proof {
        assert(views(acc@) =~= aggregate(flatten(lists@.take(0))));
    }
    while i < lists.len()
        invariant
            0 <= i <= lists.len(),
            sum_amounts(flatten(lists@)) <= usize::MAX,
            identified(flatten(lists@.take(i as int))),
            views(acc@) == aggregate(flatten(lists@.take(i as int))),
        decreases lists.len() - i,
    {
        let ghost pre = flatten(lists@.take(i as int));
        proof {
            assert(lists@.take(i as int + 1).drop_last() =~= lists@.take(i as int));
            lemma_flatten_prefix(lists@, i as int + 1);
            lemma_sum_add(flatten(lists@.take(i as int + 1)), flatten(lists@).skip(flatten(lists@.take(i as int + 1)).len() as int));
        }
        match absorb_list(&mut acc, &lists[i], Ghost(pre)) {
            Ok(()) => {},
            Err(e) => {
                proof {
                    lemma_identified_add(pre, views(lists@[i as int]@));
                    lemma_flatten_prefix(lists@, i as int + 1);
                    lemma_identified_add(flatten(lists@.take(i as int + 1)), flatten(lists@).skip(flatten(lists@.take(i as int + 1)).len() as int));
                }
                return Err(e);
            },
        }
        proof {
            lemma_identified_add(pre, views(lists@[i as int]@));
        }
        i = i + 1;
    }
    proof {
        assert(lists@.take(i as int) =~= lists@);
        lemma_aggregate(flatten(lists@));
        assert(tally(views(acc@)) =~= tally(flatten(lists@)));
    }
    Ok(acc)
}

/// A prefix of the lists flattens to a prefix of the flattened lists.
proof fn lemma_flatten_prefix<T: Ingredient>(lists: Seq<Vec<T>>, n: int)
    requires
        0 <= n <= lists.len(),
    ensures
        flatten(lists) =~= flatten(lists.take(n)) + flatten(lists).skip(flatten(lists.take(n)).len() as int),
        flatten(lists.take(n)).len() <= flatten(lists).len(),
    decreases lists.len() - n,
{
    if n == lists.len() {
        assert(lists.take(n) =~= lists);
    } else {
        lemma_flatten_prefix(lists, n + 1);
        assert(lists.take(n + 1).drop_last() =~= lists.take(n));
        let f = flatten(lists);
        let a = flatten(lists.take(n));
        let b = flatten(lists.take(n + 1));
        assert(b =~= a + views(lists[n]@));
        assert(f =~= b + f.skip(b.len() as int));
    }
}

/// Dropping the last entry of a keyed aggregate keeps it keyed.
pub proof fn lemma_keyed_drop_last(acc: Seq<IngredientView>)
    requires
        keyed(acc),
        acc.len() > 0,
    ensures
        keyed(acc.drop_last()),
{
    let d = acc.drop_last();
    assert forall|i: int| 0 <= i < d.len() implies (#[trigger] d[i]).unlocalized_name is Some by {
        assert(d[i] == acc[i]);
    }
    assert forall|i: int, j: int|
        0 <= i < d.len() && 0 <= j < d.len() && i != j implies (#[trigger] d[i]).unlocalized_name
        != (#[trigger] d[j]).unlocalized_name by {
        assert(d[i] == acc[i] && d[j] == acc[j]);
    }
}

/// An identity that no stack has totals zero.
pub proof fn lemma_total_absent(s: Seq<IngredientView>, id: Seq<char>)
    requires
        !present(s, id),
    ensures
        total(s, id) == 0,
    decreases s.len(),
{
    if s.len() > 0 {
        let d = s.drop_last();
        assert(!present(d, id)) by {
            if present(d, id) {
                let i = choose|i: int| 0 <= i < d.len() && identity(d[i]) == Some(id);
                assert(s[i] == d[i]);
            }
        }
        assert(identity(s[s.len() - 1]) != Some(id));
        lemma_total_absent(d, id);
    }
}

/// Appending a stack adds to the total and presence of its identity only.
pub proof fn lemma_push(s: Seq<IngredientView>, x: IngredientView, id: Seq<char>)
    ensures
        total(s.push(x), id) == total(s, id) + if identity(x) == Some(id) {
            x.amount
        } else {
            0
        },
        present(s.push(x), id) <==> (present(s, id) || identity(x) == Some(id)),
{
    assert(s.push(x).drop_last() =~= s);
    if present(s, id) {
        let i = choose|i: int| 0 <= i < s.len() && identity(s[i]) == Some(id);
        assert(s.push(x)[i] == s[i]);
    }
    if identity(x) == Some(id) {
        assert(s.push(x)[s.len() as int] == x);
    }
    if present(s.push(x), id) {
        let i = choose|i: int| 0 <= i < s.len() + 1 && identity(s.push(x)[i]) == Some(id);
        if i < s.len() {
            assert(s.push(x)[i] == s[i]);
        }
    }
}

/// `start` plus the sum of the amounts of `list`, or `None` when that does
/// not fit in a size.
pub fn add_amounts<T: Ingredient>(start: usize, list: &Vec<T>) -> (r: Option<usize>)
    ensures
        r is Some <==> start + sum_amounts(views(list@)) <= usize::MAX,
        r is Some ==> r->Some_0 == start + sum_amounts(views(list@)),
{
    let ghost v = views(list@);
    let mut acc: usize = start;
    let mut i: usize = 0;
    while i < list.len()
        invariant
            v == views(list@),
            0 <= i <= list.len(),
            acc == start + sum_amounts(v.take(i as int)),
        decreases list.len() - i,
    {
        proof {
            assert(v.take(i as int + 1).drop_last() =~= v.take(i as int));
            assert(v.take(i as int + 1).last() == list@[i as int]@);
            assert(v =~= v.take(i as int + 1) + v.skip(i as int + 1));
            lemma_sum_add(v.take(i as int + 1), v.skip(i as int + 1));
        }
        let x = list[i].quantity();
        if acc > usize::MAX - x {
            return None;
        }
        acc = acc + x;
        i = i + 1;
    }
    proof {
        assert(v.take(i as int) =~= v);
    }
    Some(acc)
}

} // verus!
