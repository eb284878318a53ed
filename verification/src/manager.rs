//! Add / remove / list semantics on top of the link store.
//!
//! A batch processes its names independently, front to back: one name's
//! failure never aborts the rest. Each name gets a typed outcome, collected
//! into a sequence aligned with the input; the caller renders them all and
//! chooses an aggregate exit code. The spec functions here define the batch
//! semantics as a fold over the store's map model, and the batch operations
//! are proved to follow it exactly.

use vstd::prelude::*;

use crate::error::LinkError;
use crate::store::{launcher_path_spec, LinkStore, LinkedCommand};

verus! {

/// The store map after one `add` of `n` (target defaults to the name
/// itself): an absent name is inserted, a present one is left untouched.
pub open spec fn add_step(m: Map<Seq<char>, Seq<char>>, n: Seq<char>) -> Map<Seq<char>, Seq<char>> {
    if m.contains_key(n) {
        m
    } else {
        m.insert(n, n)
    }
}

/// The outcome one `add` of `n` reports against the map `m`.
pub open spec fn add_result(m: Map<Seq<char>, Seq<char>>, dir: Seq<char>, n: Seq<char>) -> Result<
    Seq<char>,
    LinkError,
> {
    if m.contains_key(n) {
        Err(LinkError::AlreadyLinked)
    } else {
        Ok(launcher_path_spec(dir, n))
    }
}

/// The store map after adding each of `names` in order.
pub open spec fn map_after_add(m: Map<Seq<char>, Seq<char>>, names: Seq<Seq<char>>) -> Map<
    Seq<char>,
    Seq<char>,
>
    decreases names.len(),
{
    if names.len() == 0 {
        m
    } else {
        map_after_add(add_step(m, names[0]), names.drop_first())
    }
}

/// The per-name outcomes of adding each of `names` in order, aligned with
/// the input.
pub open spec fn add_results(
    m: Map<Seq<char>, Seq<char>>,
    dir: Seq<char>,
    names: Seq<Seq<char>>,
) -> Seq<Result<Seq<char>, LinkError>>
    decreases names.len(),
{
    if names.len() == 0 {
        Seq::empty()
    } else {
        seq![add_result(m, dir, names[0])] + add_results(
            add_step(m, names[0]),
            dir,
            names.drop_first(),
        )
    }
}

/// The store map after one `remove` of `n`.
pub open spec fn remove_step(m: Map<Seq<char>, Seq<char>>, n: Seq<char>) -> Map<
    Seq<char>,
    Seq<char>,
> {
    if m.contains_key(n) {
        m.remove(n)
    } else {
        m
    }
}

/// The outcome one `remove` of `n` reports against the map `m`.
pub open spec fn remove_result(m: Map<Seq<char>, Seq<char>>, dir: Seq<char>, n: Seq<char>) -> Result<
    Seq<char>,
    LinkError,
> {
    if m.contains_key(n) {
        Ok(launcher_path_spec(dir, n))
    } else {
        Err(LinkError::NotLinked)
    }
}

/// The store map after removing each of `names` in order.
pub open spec fn map_after_remove(m: Map<Seq<char>, Seq<char>>, names: Seq<Seq<char>>) -> Map<
    Seq<char>,
    Seq<char>,
>
    decreases names.len(),
{
    if names.len() == 0 {
        m
    } else {
        map_after_remove(remove_step(m, names[0]), names.drop_first())
    }
}

/// The per-name outcomes of removing each of `names` in order.
pub open spec fn remove_results(
    m: Map<Seq<char>, Seq<char>>,
    dir: Seq<char>,
    names: Seq<Seq<char>>,
) -> Seq<Result<Seq<char>, LinkError>>
    decreases names.len(),
{
    if names.len() == 0 {
        Seq::empty()
    } else {
        seq![remove_result(m, dir, names[0])] + remove_results(
            remove_step(m, names[0]),
            dir,
            names.drop_first(),
        )
    }
}

/// An executable per-name outcome, seen as its mathematical value.
pub open spec fn result_view(r: Result<String, LinkError>) -> Result<Seq<char>, LinkError> {
    match r {
        Ok(s) => Ok(s@),
        Err(e) => Err(e),
    }
}

/// Folding one more name into a batch `add` appends one outcome and applies
/// one step to the map.
proof fn lemma_add_snoc(
    m: Map<Seq<char>, Seq<char>>,
    dir: Seq<char>,
    names: Seq<Seq<char>>,
    n: Seq<char>,
)
    ensures
        map_after_add(m, names.push(n)) == add_step(map_after_add(m, names), n),
        add_results(m, dir, names.push(n)) == add_results(m, dir, names) + seq![
            add_result(map_after_add(m, names), dir, n),
        ],
    decreases names.len(),
{
    reveal_with_fuel(map_after_add, 3);
    reveal_with_fuel(add_results, 3);
    let whole = names.push(n);
    if names.len() == 0 {
        assert(whole[0] == n);
        assert(whole.drop_first() =~= Seq::<Seq<char>>::empty());
        assert(add_results(m, dir, whole) =~= add_results(m, dir, names) + seq![
            add_result(map_after_add(m, names), dir, n),
        ]);
    } else {
        assert(whole[0] == names[0]);
        assert(whole.drop_first() =~= names.drop_first().push(n));
        lemma_add_snoc(add_step(m, names[0]), dir, names.drop_first(), n);
        assert(add_results(m, dir, whole) =~= add_results(m, dir, names) + seq![
            add_result(map_after_add(m, names), dir, n),
        ]);
    }
}

/// The `remove` counterpart of [`lemma_add_snoc`].
proof fn lemma_remove_snoc(
    m: Map<Seq<char>, Seq<char>>,
    dir: Seq<char>,
    names: Seq<Seq<char>>,
    n: Seq<char>,
)
    ensures
        map_after_remove(m, names.push(n)) == remove_step(map_after_remove(m, names), n),
        remove_results(m, dir, names.push(n)) == remove_results(m, dir, names) + seq![
            remove_result(map_after_remove(m, names), dir, n),
        ],
    decreases names.len(),
{
    reveal_with_fuel(map_after_remove, 3);
    reveal_with_fuel(remove_results, 3);
    let whole = names.push(n);
    if names.len() == 0 {
        assert(whole[0] == n);
        assert(whole.drop_first() =~= Seq::<Seq<char>>::empty());
        assert(remove_results(m, dir, whole) =~= remove_results(m, dir, names) + seq![
            remove_result(map_after_remove(m, names), dir, n),
        ]);
    } else {
        assert(whole[0] == names[0]);
        assert(whole.drop_first() =~= names.drop_first().push(n));
        lemma_remove_snoc(remove_step(m, names[0]), dir, names.drop_first(), n);
        assert(remove_results(m, dir, whole) =~= remove_results(m, dir, names) + seq![
            remove_result(map_after_remove(m, names), dir, n),
        ]);
    }
}

/// Links every name of `names`, each to a target of the same name, and
/// reports one outcome per name, in input order. A name that is already
/// linked yields [`LinkError::AlreadyLinked`] and does not disturb the
/// processing of the remaining names.
pub fn add(store: &mut LinkStore, names: &Vec<String>) -> (results: Vec<
    Result<String, LinkError>,
>)
    requires
        old(store).wf(),
    ensures
        final(store).wf(),
        final(store).dir_spec() == old(store).dir_spec(),
        final(store)@ == map_after_add(old(store)@, names.deep_view()),
        results@.map_values(|r: Result<String, LinkError>| result_view(r)) == add_results(
            old(store)@,
            old(store).dir_spec(),
            names.deep_view(),
        ),
{
    let ghost m0 = old(store)@;
    let ghost dir = old(store).dir_spec();
    let ghost nv = names.deep_view();
    let n = names.len();
    let mut results: Vec<Result<String, LinkError>> = Vec::new();
    let mut i: usize = 0;
    proof {
        assert(nv.take(0) =~= Seq::<Seq<char>>::empty());
        assert(results@.map_values(|r: Result<String, LinkError>| result_view(r)) =~= add_results(
            m0,
            dir,
            nv.take(0),
        ));
    }
    while i < n
        invariant
            i <= n,
            n == names@.len(),
            nv == names.deep_view(),
            store.wf(),
            store.dir_spec() == dir,
            store@ == map_after_add(m0, nv.take(i as int)),
            results@.map_values(|r: Result<String, LinkError>| result_view(r)) == add_results(
                m0,
                dir,
                nv.take(i as int),
            ),
        decreases n - i,
    {
        let ghost m_i = store@;
        let ghost rs = results@;
        let r = store.create(names[i].as_str(), names[i].as_str());
        proof {
            assert(nv[i as int] == names@[i as int]@);
            lemma_add_snoc(m0, dir, nv.take(i as int), nv[i as int]);
            assert(nv.take(i as int).push(nv[i as int]) =~= nv.take(i + 1));
            assert(store@ == add_step(m_i, nv[i as int]));
            assert(result_view(r) == add_result(m_i, dir, nv[i as int]));
        }
        results.push(r);
        proof {
            assert(results@.map_values(|x: Result<String, LinkError>| result_view(x)) =~= rs
                .map_values(|x: Result<String, LinkError>| result_view(x)) + seq![result_view(r)]);
            assert(results@.map_values(|x: Result<String, LinkError>| result_view(x))
                =~= add_results(m0, dir, nv.take(i + 1)));
        }
        i = i + 1;
    }
    proof {
        assert(nv.take(n as int) =~= nv);
    }
    results
}

/// Unlinks every name of `names` and reports one outcome per name, in input
/// order. An absent name yields [`LinkError::NotLinked`] and does not
/// disturb the processing of the remaining names.
pub fn remove(store: &mut LinkStore, names: &Vec<String>) -> (results: Vec<
    Result<String, LinkError>,
>)
    requires
        old(store).wf(),
    ensures
        final(store).wf(),
        final(store).dir_spec() == old(store).dir_spec(),
        final(store)@ == map_after_remove(old(store)@, names.deep_view()),
        results@.map_values(|r: Result<String, LinkError>| result_view(r)) == remove_results(
            old(store)@,
            old(store).dir_spec(),
            names.deep_view(),
        ),
{
    let ghost m0 = old(store)@;
    let ghost dir = old(store).dir_spec();
    let ghost nv = names.deep_view();
    let n = names.len();
    let mut results: Vec<Result<String, LinkError>> = Vec::new();
    let mut i: usize = 0;
    proof {
        assert(nv.take(0) =~= Seq::<Seq<char>>::empty());
        assert(results@.map_values(|r: Result<String, LinkError>| result_view(r)) =~= remove_results(
            m0,
            dir,
            nv.take(0),
        ));
    }
    while i < n
        invariant
            i <= n,
            n == names@.len(),
            nv == names.deep_view(),
            store.wf(),
            store.dir_spec() == dir,
            store@ == map_after_remove(m0, nv.take(i as int)),
            results@.map_values(|r: Result<String, LinkError>| result_view(r)) == remove_results(
                m0,
                dir,
                nv.take(i as int),
            ),
        decreases n - i,
    {
        let ghost m_i = store@;
        let ghost rs = results@;
        let r = store.delete(names[i].as_str());
        proof {
            assert(nv[i as int] == names@[i as int]@);
            lemma_remove_snoc(m0, dir, nv.take(i as int), nv[i as int]);
            assert(nv.take(i as int).push(nv[i as int]) =~= nv.take(i + 1));
            assert(store@ == remove_step(m_i, nv[i as int]));
            assert(result_view(r) == remove_result(m_i, dir, nv[i as int]));
        }
        results.push(r);
        proof {
            assert(results@.map_values(|x: Result<String, LinkError>| result_view(x)) =~= rs
                .map_values(|x: Result<String, LinkError>| result_view(x)) + seq![result_view(r)]);
            assert(results@.map_values(|x: Result<String, LinkError>| result_view(x))
                =~= remove_results(m0, dir, nv.take(i + 1)));
        }
        i = i + 1;
    }
    proof {
        assert(nv.take(n as int) =~= nv);
    }
    results
}

/// All linked commands, sorted by name; read-only.
pub fn list(store: &LinkStore) -> (r: Vec<LinkedCommand>)
    requires
        store.wf(),
    ensures
        r@.len() == store.names().len(),
        forall|i: int| 0 <= i < r@.len() ==> {
            &&& (#[trigger] r@[i]).name@ == store.names()[i]
            &&& r@[i].launcher_path@ == launcher_path_spec(store.dir_spec(), r@[i].name@)
            &&& store@.contains_key(r@[i].name@)
            &&& r@[i].target@ == store@[r@[i].name@]
        },
{
    store.list_entries()
}

/// Adding a name links it, and removing it afterwards unlinks it: for any
/// store state and any name, `add([n])` leaves `n` linked, and a subsequent
/// `remove([n])` leaves it unlinked.
pub proof fn lemma_add_then_remove(m: Map<Seq<char>, Seq<char>>, n: Seq<char>)
    ensures
        map_after_add(m, seq![n]).contains_key(n),
        !map_after_remove(map_after_add(m, seq![n]), seq![n]).contains_key(n),
{
    reveal_with_fuel(map_after_add, 3);
    reveal_with_fuel(map_after_remove, 3);
    assert(seq![n].drop_first() =~= Seq::<Seq<char>>::empty());
    let m1 = map_after_add(m, seq![n]);
    assert(m1 == add_step(m, n));
    assert(map_after_remove(m1, seq![n]) == remove_step(m1, n));
}

/// Adding the same name twice in one batch succeeds once and reports
/// [`LinkError::AlreadyLinked`] the second time; the result holds exactly
/// the one inserted entry beyond the original state.
pub proof fn lemma_add_twice(m: Map<Seq<char>, Seq<char>>, dir: Seq<char>, n: Seq<char>)
    requires
        !m.contains_key(n),
    ensures
        add_results(m, dir, seq![n, n]) == seq![
            Ok::<Seq<char>, LinkError>(launcher_path_spec(dir, n)),
            Err::<Seq<char>, LinkError>(LinkError::AlreadyLinked),
        ],
        map_after_add(m, seq![n, n]) == m.insert(n, n),
{
    reveal_with_fuel(map_after_add, 4);
    reveal_with_fuel(add_results, 4);
    let names = seq![n, n];
    assert(names.drop_first() =~= seq![n]);
    assert(seq![n].drop_first() =~= Seq::<Seq<char>>::empty());
    assert(add_step(m, n) == m.insert(n, n));
    assert(add_step(m.insert(n, n), n) == m.insert(n, n));
    assert(add_results(m, dir, names) =~= seq![
        Ok::<Seq<char>, LinkError>(launcher_path_spec(dir, n)),
        Err::<Seq<char>, LinkError>(LinkError::AlreadyLinked),
    ]);
}

/// Removing an absent name reports [`LinkError::NotLinked`] and mutates
/// nothing.
pub proof fn lemma_remove_absent(m: Map<Seq<char>, Seq<char>>, dir: Seq<char>, n: Seq<char>)
    requires
        !m.contains_key(n),
    ensures
        remove_results(m, dir, seq![n]) == seq![Err::<Seq<char>, LinkError>(LinkError::NotLinked)],
        map_after_remove(m, seq![n]) == m,
{
    reveal_with_fuel(map_after_remove, 3);
    reveal_with_fuel(remove_results, 3);
    assert(seq![n].drop_first() =~= Seq::<Seq<char>>::empty());
    assert(remove_results(m, dir, seq![n]) =~= seq![
        Err::<Seq<char>, LinkError>(LinkError::NotLinked),
    ]);
}

/// Batch independence: adding `[x, y]` where `x` is already linked still
/// links `y`, and reports `x` as already linked alongside `y`'s success.
pub proof fn lemma_batch_independent(
    m: Map<Seq<char>, Seq<char>>,
    dir: Seq<char>,
    x: Seq<char>,
    y: Seq<char>,
)
    requires
        m.contains_key(x),
        !m.contains_key(y),
    ensures
        add_results(m, dir, seq![x, y]) == seq![
            Err::<Seq<char>, LinkError>(LinkError::AlreadyLinked),
            Ok::<Seq<char>, LinkError>(launcher_path_spec(dir, y)),
        ],
        map_after_add(m, seq![x, y]) == m.insert(y, y),
        map_after_add(m, seq![x, y]).contains_key(y),
{
    reveal_with_fuel(map_after_add, 4);
    reveal_with_fuel(add_results, 4);
    let names = seq![x, y];
    assert(names.drop_first() =~= seq![y]);
    assert(seq![y].drop_first() =~= Seq::<Seq<char>>::empty());
    assert(add_step(m, x) == m);
    assert(add_results(m, dir, names) =~= seq![
        Err::<Seq<char>, LinkError>(LinkError::AlreadyLinked),
        Ok::<Seq<char>, LinkError>(launcher_path_spec(dir, y)),
    ]);
}

} // verus!
