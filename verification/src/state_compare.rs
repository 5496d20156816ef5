//! Early-exit equality of attribute mappings.
//!
//! An attribute mapping is a string-keyed collection of host-supplied
//! values. The host value type exposes its own equality test through the
//! [`ValueEq`] capability; that test may itself fail, and such a failure is
//! propagated unchanged. The comparator's ordering is a strict optimization
//! contract: the identity check and the size check run before any value is
//! inspected, and the scan stops at the first mismatch.

use vstd::prelude::*;

verus! {

/// The failure a host value's own equality test may report. The comparator
/// never constructs one of these itself; it only passes them on.
#[derive(Debug)]
pub struct ComparisonError {
    pub detail: String,
}

/// The equality capability a host value type must expose. The mapping
/// comparator defines no notion of value equality of its own: it delegates
/// every value comparison to this test, which may fail.
pub trait ValueEq: Sized {
    /// Whether the host's equality test succeeds on this pair. An
    /// implementation that keeps the default says nothing about when its
    /// test succeeds.
    open spec fn eq_defined(&self, other: &Self) -> bool {
        vstd::pervasive::arbitrary()
    }

    /// What the host's equality test returns when it succeeds. An
    /// implementation that keeps the default says nothing about what its
    /// test answers.
    open spec fn eq_value(&self, other: &Self) -> bool {
        vstd::pervasive::arbitrary()
    }

    /// Which failures the host's test can report on this pair: every error
    /// the comparator hands back is one the pair's own test produced,
    /// passed on unchanged. An implementation that keeps the default says
    /// nothing about its failures.
    open spec fn eq_err(&self, other: &Self, e: ComparisonError) -> bool {
        vstd::pervasive::arbitrary()
    }

    /// The host's own equality test.
    fn value_eq(&self, other: &Self) -> (r: Result<bool, ComparisonError>)
        ensures
            match r {
                Ok(b) => self.eq_defined(other) && b == self.eq_value(other),
                Err(e) => !self.eq_defined(other) && self.eq_err(other, e),
            },
    ;
}

/// Relies on core::ptr::eq: it answers true only when the two references
/// carry the same address, and two references to one address see one value
/// — provided the type has a size. Distinct zero-sized values can share an
/// address, so nothing is claimed of them. Nothing is promised when it
/// answers false either: two equal values may well live at two addresses.
#[verifier::external_body]
fn same_object<T>(a: &T, b: &T) -> (r: bool)
    ensures
        r ==> (vstd::layout::size_of::<T>() == 0 || a == b),
{
    core::ptr::eq(a, b)
}

/// Compares two host values: identity first, then the host's own test.
/// Two references to the very same value compare equal without the host
/// test ever running, so a value the host cannot compare is still equal
/// to itself when handed in twice.
pub fn compare_values<V: ValueEq>(a: &V, b: &V) -> (r: Result<bool, ComparisonError>)
    ensures
        a.eq_defined(b) ==> r.is_ok(),
        a.eq_defined(b) && a.eq_value(b) ==> r == Ok::<bool, ComparisonError>(true),
        match r {
            Ok(true) => vstd::layout::size_of::<V>() == 0 || *a == *b || (a.eq_defined(b)
                && a.eq_value(b)),
            Ok(false) => a.eq_defined(b) && !a.eq_value(b),
            Err(e) => !a.eq_defined(b) && a.eq_err(b, e),
        },
{
    if same_object(a, b) {
        return Ok(true);
    }
    a.value_eq(b)
}

/// No two of the pairs share a key.
pub open spec fn unique_keys<V>(es: Seq<(String, V)>) -> bool {
    forall|i: int, j: int| 0 <= i < j < es.len() ==> (#[trigger] es[i].0@) != (#[trigger] es[j].0@)
}

/// The mapping that a sequence of key-value pairs builds up, read left to
/// right, a later pair winning over an earlier one with the same key.
pub open spec fn map_of<V>(es: Seq<(String, V)>) -> Map<Seq<char>, V>
    decreases es.len(),
{
    if es.len() == 0 {
        Map::empty()
    } else {
        map_of(es.drop_last()).insert(es.last().0@, es.last().1)
    }
}

/// A key is in the built mapping exactly when some pair carries it.
pub proof fn lemma_map_of_dom<V>(es: Seq<(String, V)>, k: Seq<char>)
    ensures
        map_of(es).dom().contains(k) <==> exists|i: int|
            0 <= i < es.len() && (#[trigger] es[i].0@) == k,
    decreases es.len(),
{
    if es.len() > 0 {
        lemma_map_of_dom(es.drop_last(), k);
        if map_of(es).dom().contains(k) {
            if es.last().0@ == k {
                assert(es[es.len() - 1].0@ == k);
            } else {
                let i = choose|i: int| 0 <= i < es.drop_last().len() && (#[trigger] es.drop_last()[i].0@) == k;
                assert(es[i].0@ == k);
            }
        }
        if exists|i: int| 0 <= i < es.len() && (#[trigger] es[i].0@) == k {
            let i = choose|i: int| 0 <= i < es.len() && (#[trigger] es[i].0@) == k;
            if i < es.len() - 1 {
                assert(es.drop_last()[i].0@ == k);
            }
        }
    }
}

/// With unique keys, the built mapping has exactly one entry per pair.
pub proof fn lemma_map_of_len<V>(es: Seq<(String, V)>)
    requires
        unique_keys(es),
    ensures
        map_of(es).dom().finite(),
        map_of(es).dom().len() == es.len(),
    decreases es.len(),
{
    if es.len() > 0 {
        assert(unique_keys(es.drop_last()));
        lemma_map_of_len(es.drop_last());
        lemma_map_of_dom(es.drop_last(), es.last().0@);
        assert(forall|i: int|
            0 <= i < es.drop_last().len() ==> (#[trigger] es.drop_last()[i].0@) == es[i].0@);
        assert(!map_of(es.drop_last()).dom().contains(es.last().0@));
    }
}

/// With unique keys, the pair at `i` is what the built mapping holds for
/// its key.
pub proof fn lemma_map_of_at<V>(es: Seq<(String, V)>, i: int)
    requires
        unique_keys(es),
        0 <= i < es.len(),
    ensures
        map_of(es).dom().contains(es[i].0@),
        map_of(es)[es[i].0@] == es[i].1,
    decreases es.len(),
{
    if i < es.len() - 1 {
        assert(unique_keys(es.drop_last()));
        lemma_map_of_at(es.drop_last(), i);
        assert(es.drop_last()[i] == es[i]);
        assert(es[i].0@ != es.last().0@);
    }
}

/// A string-keyed mapping of host values with unique keys, the shape in
/// which a host hands attribute collections to the comparator.
pub struct AttrMap<V> {
    entries: Vec<(String, V)>,
}

impl<V> View for AttrMap<V> {
    type V = Map<Seq<char>, V>;

    closed spec fn view(&self) -> Map<Seq<char>, V> {
        map_of(self.entries@)
    }
}

impl<V> AttrMap<V> {
    /// Well-formedness: no two entries share a key. Constructed values keep
    /// this; every operation preserves it.
    pub closed spec fn wf(&self) -> bool {
        unique_keys(self.entries@)
    }

    /// An empty mapping.
    pub fn new() -> (r: AttrMap<V>)
        ensures
            r.wf(),
            r@ == Map::<Seq<char>, V>::empty(),
    {
        AttrMap { entries: Vec::new() }
    }

    /// How many keys the mapping holds.
    pub fn len(&self) -> (r: usize)
        requires
            self.wf(),
        ensures
            r == self@.dom().len(),
    {
        proof {
            lemma_map_of_len(self.entries@);
        }
        self.entries.len()
    }

    /// Adds a value under a key not yet present.
    pub fn insert(&mut self, key: String, value: V)
        requires
            old(self).wf(),
            !old(self)@.dom().contains(key@),
        ensures
            final(self).wf(),
            final(self)@ == old(self)@.insert(key@, value),
    {
        proof {
            lemma_map_of_dom(self.entries@, key@);
        }
        self.entries.push((key, value));
        proof {
            assert(self.entries@.drop_last() =~= old(self).entries@);
            assert(forall|i: int|
                0 <= i < old(self).entries@.len() ==> (#[trigger] old(self).entries@[i].0@)
                    != key@);
        }
    }

    /// Whether a key is present.
    pub fn contains_key(&self, key: &String) -> (r: bool)
        requires
            self.wf(),
        ensures
            r == self@.dom().contains(key@),
    {
        self.get(key).is_some()
    }

    /// Looks a key up.
    fn get<'a>(&'a self, key: &String) -> (r: Option<&'a V>)
        requires
            self.wf(),
        ensures
            match r {
                Some(v) => self@.dom().contains(key@) && *v == self@[key@],
                None => !self@.dom().contains(key@),
            },
    {
        let n = self.entries.len();
        let mut i: usize = 0;
        while i < n
            invariant
                self.wf(),
                n == self.entries@.len(),
                0 <= i <= n,
                forall|j: int| 0 <= j < i ==> (#[trigger] self.entries@[j].0@) != key@,
            decreases n - i,
        {
            if self.entries[i].0 == *key {
                proof {
                    lemma_map_of_at(self.entries@, i as int);
                }
                return Some(&self.entries[i].1);
            }
            i = i + 1;
        }
        proof {
            lemma_map_of_dom(self.entries@, key@);
        }
        None
    }
}

/// Every value comparison the scan could make succeeds: on each shared key
/// the host's equality test is defined.
pub open spec fn all_eq_defined<V: ValueEq>(am: Map<Seq<char>, V>, bm: Map<Seq<char>, V>) -> bool {
    forall|k: Seq<char>|
        am.dom().contains(k) && bm.dom().contains(k) ==> #[trigger] am[k].eq_defined(&bm[k])
}

/// The two mappings hold the same keys, and on each key the host's equality
/// test succeeds and accepts the pair of values.
pub open spec fn attr_maps_equal<V: ValueEq>(am: Map<Seq<char>, V>, bm: Map<Seq<char>, V>) -> bool {
    &&& am.dom() =~= bm.dom()
    &&& forall|k: Seq<char>| #[trigger]
        am.dom().contains(k) ==> am[k].eq_defined(&bm[k]) && am[k].eq_value(&bm[k])
}

/// As `attr_maps_equal`, except that a key whose two sides are the very
/// same value also counts: the comparator never runs the host's test on a
/// pair it can see is one object, so such a pair passes even when the test
/// would have failed or disagreed.
pub open spec fn attr_maps_weak_equal<V: ValueEq>(
    am: Map<Seq<char>, V>,
    bm: Map<Seq<char>, V>,
) -> bool {
    &&& am.dom() =~= bm.dom()
    &&& forall|k: Seq<char>| #[trigger]
        am.dom().contains(k) ==> (am[k] == bm[k] || (am[k].eq_defined(&bm[k]) && am[k].eq_value(
            &bm[k],
        )))
}

/// Compares two attribute mappings for equality with maximal early exit:
/// the key counts and the same-object check answer before any value is
/// inspected, and the key-by-key scan stops at the first missing key,
/// unequal pair, or failed host test. A size mismatch answers false without
/// a value comparison, so it never surfaces a host failure.
pub fn compare_attributes<V: ValueEq>(a: &AttrMap<V>, b: &AttrMap<V>) -> (r: Result<
    bool,
    ComparisonError,
>)
    requires
        a.wf(),
        b.wf(),
    ensures
        a@.dom().len() != b@.dom().len() ==> r == Ok::<bool, ComparisonError>(false),
        all_eq_defined(a@, b@) ==> r.is_ok(),
        attr_maps_equal(a@, b@) ==> r == Ok::<bool, ComparisonError>(true),
        match r {
            Ok(true) => vstd::layout::size_of::<AttrMap<V>>() == 0 || vstd::layout::size_of::<
                V,
            >() == 0 || attr_maps_weak_equal(a@, b@),
            Ok(false) => !attr_maps_equal(a@, b@),
            Err(e) => exists|k: Seq<char>|
                a@.dom().contains(k) && b@.dom().contains(k) && !(#[trigger] a@[k].eq_defined(
                    &b@[k],
                )) && a@[k].eq_err(&b@[k], e),
        },
{
    proof {
        lemma_map_of_len(a.entries@);
        lemma_map_of_len(b.entries@);
    }
    let n = a.entries.len();
    if n != b.entries.len() {
        proof {
            assert(a@.dom().len() != b@.dom().len());
        }
        return Ok(false);
    }
    if same_object(a, b) {
        return Ok(true);
    }
    let mut i: usize = 0;
    while i < n
        invariant
            a.wf(),
            b.wf(),
            n == a.entries@.len(),
            n == b.entries@.len(),
            a@.dom().len() == b@.dom().len(),
            0 <= i <= n,
            forall|j: int|
                0 <= j < i ==> {
                    let k = (#[trigger] a.entries@[j]).0@;
                    b@.dom().contains(k) && (vstd::layout::size_of::<V>() == 0 || a@[k] == b@[k]
                        || (a@[k].eq_defined(&b@[k]) && a@[k].eq_value(&b@[k])))
                },
        decreases n - i,
    {
        let entry = &a.entries[i];
        proof {
            lemma_map_of_at(a.entries@, i as int);
        }
        let found = b.get(&entry.0);
        match found {
            None => {
                proof {
                    assert(a@.dom().contains(entry.0@) && !b@.dom().contains(entry.0@));
                }
                return Ok(false);
            },
            Some(value2) => {
                match compare_values(&entry.1, value2) {
                    Ok(true) => {},
                    Ok(false) => {
                        return Ok(false);
                    },
                    Err(e) => {
                        return Err(e);
                    },
                }
            },
        }
        i = i + 1;
    }
    proof {
        assert forall|k: Seq<char>| #[trigger] a@.dom().contains(k) implies b@.dom().contains(k)
            && (vstd::layout::size_of::<V>() == 0 || a@[k] == b@[k] || (a@[k].eq_defined(&b@[k])
            && a@[k].eq_value(&b@[k]))) by {
            lemma_map_of_dom(a.entries@, k);
            let j = choose|j: int| 0 <= j < a.entries@.len() && (#[trigger] a.entries@[j].0@) == k;
            lemma_map_of_at(a.entries@, j);
            assert(a.entries@[j].0@ == k);
        }
        lemma_map_of_len(a.entries@);
        lemma_map_of_len(b.entries@);
        assert(a@.dom().subset_of(b@.dom()));
        assert forall|k: Seq<char>| b@.dom().contains(k) implies a@.dom().contains(k) by {
            if !a@.dom().contains(k) {
                a@.dom().lemma_subset_not_in_lt(b@.dom(), k);
            }
        }
        assert(a@.dom() =~= b@.dom());
    }
    Ok(true)
}

/// Every mapping is weakly equal to itself: on each key the two sides are
/// one value. This is the shape of the comparator's true answer when a
/// mapping is handed in twice, whether or not its values' own tests would
/// succeed; that the comparator actually takes the identity short-circuit
/// on one object rests on run-time object identity, which these contracts
/// do not model.
pub proof fn lemma_attr_maps_weak_equal_reflexive<V: ValueEq>(am: Map<Seq<char>, V>)
    ensures
        attr_maps_weak_equal(am, am),
{
}

/// A mapping whose values each accept themselves is equal to itself in the
/// strong sense; with the comparator's contract, comparing such a mapping
/// against an equal-content copy answers true.
pub proof fn lemma_attr_maps_equal_reflexive<V: ValueEq>(am: Map<Seq<char>, V>)
    requires
        forall|k: Seq<char>|
            am.dom().contains(k) ==> (#[trigger] am[k].eq_defined(&am[k])) && am[k].eq_value(
                &am[k],
            ),
    ensures
        attr_maps_equal(am, am),
{
}

/// Equal-content mappings compare equal in either order wherever the
/// host's own equality test is itself symmetric on the values compared;
/// together with the comparator's contract, both call orders then answer
/// true.
pub proof fn lemma_attr_maps_equal_symmetric<V: ValueEq>(
    am: Map<Seq<char>, V>,
    bm: Map<Seq<char>, V>,
)
    requires
        attr_maps_equal(am, bm),
        forall|k: Seq<char>|
            am.dom().contains(k) && bm.dom().contains(k) ==> ((#[trigger] bm[k].eq_defined(&am[k]))
                == am[k].eq_defined(&bm[k]) && (am[k].eq_defined(&bm[k]) ==> bm[k].eq_value(&am[k])
                == am[k].eq_value(&bm[k]))),
    ensures
        attr_maps_equal(bm, am),
{
    assert forall|k: Seq<char>| #[trigger]
        bm.dom().contains(k) implies bm[k].eq_defined(&am[k]) && bm[k].eq_value(&am[k]) by {
        assert(am.dom().contains(k));
        assert(am[k].eq_defined(&bm[k]) && am[k].eq_value(&bm[k]));
        assert(bm[k].eq_defined(&am[k]) == am[k].eq_defined(&bm[k]));
    }
}

} // verus!
