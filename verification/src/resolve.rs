//! The registry of known addons and the order in which the host loads them.
use vstd::prelude::*;
use vstd::set_lib::{set_int_range, lemma_int_range, lemma_len_subset, lemma_subset_equality};
use crate::addon::AddonObject;

verus! {

/// All positions in `order` point into `objs`.
pub open spec fn in_range(objs: Seq<AddonObject>, order: Seq<usize>) -> bool {
    forall|k: int| 0 <= k < order.len() ==> #[trigger] order[k] < objs.len()
}

/// Some addon among those that `order` has loaded is named `d`.
pub open spec fn is_loaded_name(objs: Seq<AddonObject>, order: Seq<usize>, d: Seq<char>) -> bool {
    exists|j: int| 0 <= j < order.len() && #[trigger] objs[order[j] as int].name@ == d
}

/// Every dependency of `objs[i]` names an addon that `order` has loaded.
pub open spec fn deps_met(objs: Seq<AddonObject>, order: Seq<usize>, i: int) -> bool {
    forall|k: int|
        0 <= k < objs[i].dependency.len() ==> is_loaded_name(
            objs,
            order,
            #[trigger] objs[i].dependency@[k]@,
        )
}

/// `order` loads addons of `objs`, each at most once, and each only after all
/// the addons it depends on.
pub open spec fn valid_load_order(objs: Seq<AddonObject>, order: Seq<usize>) -> bool {
    &&& in_range(objs, order)
    &&& order.no_duplicates()
    &&& forall|k: int| 0 <= k < order.len() ==> deps_met(objs, order.take(k), #[trigger] order[k] as int)
}

/// No addon that `order` leaves out could be loaded after it: each lacks a
/// dependency.
pub open spec fn load_blocked(objs: Seq<AddonObject>, order: Seq<usize>) -> bool {
    forall|i: int|
        0 <= i < objs.len() && !#[trigger] order.contains(i as usize) ==> !deps_met(objs, order, i)
}

/// Every addon of `objs` is loaded by `order`.
pub open spec fn loads_all(objs: Seq<AddonObject>, order: Seq<usize>) -> bool {
    forall|i: int| 0 <= i < objs.len() ==> #[trigger] order.contains(i as usize)
}

proof fn lemma_distinct_indices(s: Seq<usize>, n: nat)
    requires
        n <= usize::MAX,
        s.no_duplicates(),
        forall|k: int| 0 <= k < s.len() ==> #[trigger] s[k] < n,
    ensures
        s.len() <= n,
        s.len() == n ==> forall|i: int| 0 <= i < n ==> #[trigger] s.contains(i as usize),
        (forall|i: int| 0 <= i < n ==> #[trigger] s.contains(i as usize)) ==> s.len() == n,
{
    broadcast use vstd::seq_lib::group_seq_properties;
    let t = s.map_values(|x: usize| x as int);
    assert(t.no_duplicates()) by {
        assert forall|a: int, b: int| 0 <= a < t.len() && 0 <= b < t.len() && a != b implies t[a]
            != t[b] by {
            assert(s[a] != s[b]);
        }
    }
    t.unique_seq_to_set();
    lemma_int_range(0, n as int);
    assert(t.to_set().subset_of(set_int_range(0, n as int))) by {
        assert forall|x: int| t.to_set().contains(x) implies set_int_range(0, n as int).contains(
            x,
        ) by {
            assert(t.contains(x));
            let k = choose|k: int| 0 <= k < t.len() && t[k] == x;
            assert(s[k] < n);
        }
    }
    lemma_len_subset(t.to_set(), set_int_range(0, n as int));
    if forall|i: int| 0 <= i < n ==> #[trigger] s.contains(i as usize) {
        assert(set_int_range(0, n as int).subset_of(t.to_set())) by {
            assert forall|x: int| set_int_range(0, n as int).contains(x) implies t.to_set().contains(
                x,
            ) by {
                assert(s.contains(x as usize));
                let k = choose|k: int| 0 <= k < s.len() && s[k] == x as usize;
                assert(t[k] == x);
                assert(t.contains(x));
            }
        }
        lemma_len_subset(set_int_range(0, n as int), t.to_set());
    }
    if s.len() == n {
        lemma_subset_equality(t.to_set(), set_int_range(0, n as int));
        assert forall|i: int| 0 <= i < n implies #[trigger] s.contains(i as usize) by {
            assert(set_int_range(0, n as int).contains(i));
            assert(t.to_set().contains(i));
            assert(t.contains(i));
            let k = choose|k: int| 0 <= k < t.len() && t[k] == i;
            assert(s[k] == i as usize);
        }
    }
}


proof fn lemma_loaded_before(objs: Seq<AddonObject>, a: Seq<usize>, b: Seq<usize>, k: int)
    requires
        valid_load_order(objs, a),
        in_range(objs, b),
        load_blocked(objs, b),
        0 <= k < a.len(),
    ensures
        forall|j: int| 0 <= j <= k ==> b.contains(#[trigger] a[j]),
    decreases k,
{
    if k > 0 {
        lemma_loaded_before(objs, a, b, k - 1);
    }
    let x = a[k];
    if !b.contains(x) {
        assert(x < objs.len());
        assert(!b.contains(x as int as usize));
        assert(!deps_met(objs, b, x as int));
        let m = choose|m: int|
            0 <= m < objs[x as int].dependency.len() && !is_loaded_name(
                objs,
                b,
                #[trigger] objs[x as int].dependency@[m]@,
            );
        let d = objs[x as int].dependency@[m]@;
        assert(deps_met(objs, a.take(k), a[k] as int));
        assert(is_loaded_name(objs, a.take(k), d));
        let j = choose|j: int| 0 <= j < a.take(k).len() && #[trigger] objs[a.take(k)[j] as int].name@ == d;
        assert(a.take(k)[j] == a[j]);
        assert(b.contains(a[j]));
        let t = choose|t: int| 0 <= t < b.len() && b[t] == a[j];
        assert(objs[b[t] as int].name@ == d);
        assert(is_loaded_name(objs, b, d));
    }
}

/// Which addons get loaded does not depend on the order in which the host
/// tries them: any two load orders that each leave out only addons they
/// cannot load contain the same addons.
pub proof fn lemma_load_set_unique(objs: Seq<AddonObject>, a: Seq<usize>, b: Seq<usize>)
    requires
        valid_load_order(objs, a),
        load_blocked(objs, a),
        valid_load_order(objs, b),
        load_blocked(objs, b),
    ensures
        forall|i: usize| a.contains(i) <==> b.contains(i),
{
    if a.len() > 0 {
        lemma_loaded_before(objs, a, b, a.len() - 1);
    }
    if b.len() > 0 {
        lemma_loaded_before(objs, b, a, b.len() - 1);
    }
    assert forall|i: usize| a.contains(i) <==> b.contains(i) by {
        if a.contains(i) {
            let k = choose|k: int| 0 <= k < a.len() && a[k] == i;
            assert(b.contains(a[k]));
        }
        if b.contains(i) {
            let k = choose|k: int| 0 <= k < b.len() && b[k] == i;
            assert(a.contains(b[k]));
        }
    }
}

/// An addon that depends on a name that no addon carries is never loaded.
pub proof fn lemma_missing_dependency_blocks(objs: Seq<AddonObject>, order: Seq<usize>, i: usize, m: int)
    requires
        valid_load_order(objs, order),
        i < objs.len(),
        0 <= m < objs[i as int].dependency.len(),
        forall|j: int| 0 <= j < objs.len() ==> #[trigger] objs[j].name@ != objs[i as int].dependency@[m]@,
    ensures
        !order.contains(i),
{
    if order.contains(i) {
        let k = choose|k: int| 0 <= k < order.len() && order[k] == i;
        assert(deps_met(objs, order.take(k), order[k] as int));
        let d = objs[i as int].dependency@[m]@;
        assert(is_loaded_name(objs, order.take(k), d));
        let j = choose|j: int| 0 <= j < order.take(k).len() && #[trigger] objs[order.take(k)[j] as int].name@ == d;
        assert(order.take(k)[j] < objs.len());
    }
}

fn name_loaded(objs: &Vec<AddonObject>, order: &Vec<usize>, d: &String) -> (b: bool)
    requires
        in_range(objs@, order@),
    ensures
        b == is_loaded_name(objs@, order@, d@),
{
    let mut j: usize = 0;
    while j < order.len()
        invariant
            in_range(objs@, order@),
            j <= order.len(),
            forall|t: int| 0 <= t < j ==> #[trigger] objs@[order@[t] as int].name@ != d@,
        decreases order.len() - j,
    {
        let idx = order[j];
        if objs[idx].name == *d {
            return true;
        }
        j = j + 1;
    }
    false
}

fn deps_ready(objs: &Vec<AddonObject>, order: &Vec<usize>, i: usize) -> (b: bool)
    requires
        in_range(objs@, order@),
        i < objs.len(),
    ensures
        b == deps_met(objs@, order@, i as int),
{
    let deps = &objs[i].dependency;
    let mut k: usize = 0;
    while k < deps.len()
        invariant
            in_range(objs@, order@),
            i < objs.len(),
            deps == &objs@[i as int].dependency,
            k <= deps.len(),
            forall|t: int| 0 <= t < k ==> is_loaded_name(objs@, order@, #[trigger] deps@[t]@),
        decreases deps.len() - k,
    {
        if !name_loaded(objs, order, &deps[k]) {
            return false;
        }
        k = k + 1;
    }
    true
}

proof fn lemma_push_keeps_order(objs: Seq<AddonObject>, order: Seq<usize>, i: usize)
    requires
        valid_load_order(objs, order),
        i < objs.len(),
        !order.contains(i),
        deps_met(objs, order, i as int),
    ensures
        valid_load_order(objs, order.push(i)),
{
    let o2 = order.push(i);
    assert(o2.take(order.len() as int) =~= order);
    assert forall|k: int| 0 <= k < o2.len() implies deps_met(objs, o2.take(k), #[trigger] o2[k] as int) by {
        if k < order.len() {
            assert(o2.take(k) =~= order.take(k));
            assert(o2[k] == order[k]);
        }
    }
    assert(o2.no_duplicates()) by {
        assert forall|a: int, b: int| 0 <= a < o2.len() && 0 <= b < o2.len() && a != b implies o2[a] != o2[b] by {
            if a == order.len() {
                assert(order[b] == o2[b]);
            } else if b == order.len() {
                assert(order[a] == o2[a]);
            }
        }
    }
}

/// Decides the order in which the host loads the addons of `objs`: round after
/// round it loads, in their order, the addons not yet loaded whose dependencies
/// are all loaded, until all are loaded or a round loads none.
///
/// The result is the order and whether it loads every addon.
pub fn resolve_load_order(objs: &Vec<AddonObject>) -> (r: (Vec<usize>, bool))
    ensures
        valid_load_order(objs@, r.0@),
        load_blocked(objs@, r.0@),
        r.1 == (r.0@.len() == objs@.len()),
        r.1 == loads_all(objs@, r.0@),
{
    let n = objs.len();
    let mut loaded: Vec<bool> = Vec::new();
    let mut z: usize = 0;
    while z < n
        invariant
            z <= n,
            loaded@.len() == z,
            forall|t: int| 0 <= t < z ==> !#[trigger] loaded@[t],
        decreases n - z,
    {
        loaded.push(false);
        z = z + 1;
    }
    let mut order: Vec<usize> = Vec::new();
    loop
        invariant
            n == objs@.len(),
            loaded@.len() == n,
            valid_load_order(objs@, order@),
            forall|t: int| 0 <= t < n ==> #[trigger] loaded@[t] == order@.contains(t as usize),
        decreases n - order@.len(),
    {
        proof {
            lemma_distinct_indices(order@, n as nat);
        }
        let before = order.len();
        if before == n {
            return (order, true);
        }
        let mut i: usize = 0;
        while i < n
            invariant
                n == objs@.len(),
                loaded@.len() == n,
                valid_load_order(objs@, order@),
                forall|t: int| 0 <= t < n ==> #[trigger] loaded@[t] == order@.contains(t as usize),
                before <= order@.len(),
                i <= n,
                order@.len() == before ==> forall|t: int|
                    0 <= t < i ==> #[trigger] loaded@[t] || !deps_met(objs@, order@, t),
            decreases n - i,
        {
            if !loaded[i] && deps_ready(objs, &order, i) {
                proof {
                    lemma_push_keeps_order(objs@, order@, i);
                }
                let ghost prev = order@;
                loaded.set(i, true);
                order.push(i);
                proof {
                    assert forall|t: int| 0 <= t < n implies #[trigger] loaded@[t] == order@.contains(
                        t as usize,
                    ) by {
                        if order@.contains(t as usize) {
                            let k = choose|k: int| 0 <= k < order@.len() && order@[k] == t as usize;
                            if k < prev.len() {
                                assert(prev[k] == t as usize);
                            }
                        }
                        if t != i && prev.contains(t as usize) {
                            let k = choose|k: int| 0 <= k < prev.len() && prev[k] == t as usize;
                            assert(order@[k] == t as usize);
                        }
                        if t == i {
                            assert(order@[prev.len() as int] == i);
                        }
                    }
                }
            }
            i = i + 1;
        }
        if order.len() == before {
            proof {
                lemma_distinct_indices(order@, n as nat);
                assert forall|t: int| 0 <= t < n && !#[trigger] order@.contains(t as usize) implies !deps_met(objs@, order@, t) by {
                    assert(!loaded@[t]);
                }
            }
            return (order, false);
        }
        proof {
            lemma_distinct_indices(order@, n as nat);
        }
    }
}


/// No two addons of `objs` carry the same name.
pub open spec fn unique_names(objs: Seq<AddonObject>) -> bool {
    forall|a: int, b: int|
        0 <= a < objs.len() && 0 <= b < objs.len() && a != b ==> #[trigger] objs[a].name@
            != #[trigger] objs[b].name@
}

/// `after` is `before` with `obj` registered at `idx`: in place of the addon of
/// the same name where there is one, else appended.
pub open spec fn inserted_as(before: Seq<AddonObject>, obj: AddonObject, idx: usize, after: Seq<AddonObject>) -> bool {
    &&& (exists|j: int| 0 <= j < before.len() && #[trigger] before[j].name@ == obj.name@)
        ==> idx < before.len() && before[idx as int].name@ == obj.name@
        && after == before.update(idx as int, obj)
    &&& (forall|j: int| 0 <= j < before.len() ==> #[trigger] before[j].name@ != obj.name@)
        ==> idx == before.len() && after == before.push(obj)
}

/// Registering an addon makes it the one and only addon of its name, at the
/// returned position, and leaves every other addon where it was.
pub proof fn lemma_insert_then_find(before: Seq<AddonObject>, obj: AddonObject, idx: usize, after: Seq<AddonObject>)
    requires
        unique_names(before),
        inserted_as(before, obj, idx, after),
    ensures
        idx < after.len(),
        after[idx as int] == obj,
        forall|j: int| 0 <= j < after.len() && j != idx ==> #[trigger] after[j].name@ != obj.name@,
        forall|j: int| 0 <= j < after.len() && j != idx ==> #[trigger] after[j] == before[j],
        after.len() == before.len() || after.len() == before.len() + 1,
{
    if exists|j: int| 0 <= j < before.len() && #[trigger] before[j].name@ == obj.name@ {
        assert forall|j: int| 0 <= j < after.len() && j != idx implies #[trigger] after[j].name@ != obj.name@ by {
            assert(before[j].name@ != before[idx as int].name@);
        }
    }
}

/// The addons the host knows of, at most one per name.
pub struct AddonRegistry {
    objects: Vec<AddonObject>,
}

impl View for AddonRegistry {
    type V = Seq<AddonObject>;

    closed spec fn view(&self) -> Seq<AddonObject> {
        self.objects@
    }
}

impl AddonRegistry {
    #[verifier::type_invariant]
    spec fn names_are_unique(&self) -> bool {
        unique_names(self.objects@)
    }

    /// An empty registry.
    pub fn new() -> (r: AddonRegistry)
        ensures
            r@ == Seq::<AddonObject>::empty(),
            unique_names(r@),
    {
        AddonRegistry { objects: Vec::new() }
    }

    /// The number of addons registered.
    pub fn len(&self) -> (n: usize)
        ensures
            n == self@.len(),
    {
        self.objects.len()
    }

    /// The registered addons, in the order of their positions.
    pub fn objects(&self) -> (v: &Vec<AddonObject>)
        ensures
            v@ == self@,
    {
        &self.objects
    }

    /// The position of the addon named `name`, if there is one.
    pub fn find(&self, name: &String) -> (r: Option<usize>)
        ensures
            r matches Some(i) ==> i < self@.len() && self@[i as int].name@ == name@,
            r is None ==> forall|j: int| 0 <= j < self@.len() ==> #[trigger] self@[j].name@ != name@,
            unique_names(self@),
    {
        proof {
            use_type_invariant(self);
        }
        let mut i: usize = 0;
        while i < self.objects.len()
            invariant
                unique_names(self.objects@),
                i <= self.objects@.len(),
                forall|j: int| 0 <= j < i ==> #[trigger] self.objects@[j].name@ != name@,
            decreases self.objects@.len() - i,
        {
            if self.objects[i].name == *name {
                return Some(i);
            }
            i = i + 1;
        }
        None
    }

    /// Registers `obj` under its name. An addon already registered under that
    /// name is replaced in its position; otherwise `obj` goes last. Returns the
    /// position of `obj`.
    pub fn insert(&mut self, obj: AddonObject) -> (idx: usize)
        ensures
            inserted_as(old(self)@, obj, idx, final(self)@),
            unique_names(final(self)@),
    {
        proof {
            use_type_invariant(&*self);
        }
        match self.find(&obj.name) {
            Some(i) => {
                let ghost before = self.objects@;
                let mut objects: Vec<AddonObject> = Vec::new();
                std::mem::swap(&mut objects, &mut self.objects);
                objects.set(i, obj);
                proof {
                    assert forall|a: int, b: int|
                        0 <= a < objects@.len() && 0 <= b < objects@.len() && a != b implies #[trigger] objects@[a].name@
                            != #[trigger] objects@[b].name@ by {
                        if a != i && b != i {
                            assert(before[a].name@ != before[b].name@);
                        } else if a == i {
                            assert(before[i as int].name@ != before[b].name@);
                        } else {
                            assert(before[i as int].name@ != before[a].name@);
                        }
                    }
                }
                self.objects = objects;
                i
            },
            None => {
                let ghost before = self.objects@;
                let n = self.objects.len();
                let mut objects: Vec<AddonObject> = Vec::new();
                std::mem::swap(&mut objects, &mut self.objects);
                objects.push(obj);
                proof {
                    assert forall|a: int, b: int|
                        0 <= a < objects@.len() && 0 <= b < objects@.len() && a != b implies #[trigger] objects@[a].name@
                            != #[trigger] objects@[b].name@ by {
                        if a != n && b != n {
                            assert(before[a].name@ != before[b].name@);
                        } else if a == n {
                            assert(objects@[b] == before[b]);
                        } else {
                            assert(objects@[a] == before[a]);
                        }
                    }
                }
                self.objects = objects;
                n
            },
        }
    }

    /// The order in which the registered addons are loaded, and whether it
    /// loads them all (see `resolve_load_order`).
    pub fn resolve(&self) -> (r: (Vec<usize>, bool))
        ensures
            valid_load_order(self@, r.0@),
            load_blocked(self@, r.0@),
            r.1 == (r.0@.len() == self@.len()),
            r.1 == loads_all(self@, r.0@),
            unique_names(self@),
    {
        proof {
            use_type_invariant(self);
        }
        resolve_load_order(&self.objects)
    }

    /// The position of the addon named `name` among those that `order` has
    /// loaded, if there is one.
    pub fn find_loaded(&self, order: &Vec<usize>, name: &String) -> (r: Option<usize>)
        requires
            in_range(self@, order@),
        ensures
            r matches Some(i) ==> order@.contains(i) && self@[i as int].name@ == name@,
            r is None ==> !is_loaded_name(self@, order@, name@),
    {
        let mut j: usize = 0;
        while j < order.len()
            invariant
                in_range(self.objects@, order@),
                j <= order.len(),
                forall|t: int| 0 <= t < j ==> #[trigger] self.objects@[order@[t] as int].name@ != name@,
            decreases order.len() - j,
        {
            let idx = order[j];
            if self.objects[idx].name == *name {
                return Some(idx);
            }
            j = j + 1;
        }
        None
    }
}

} // verus!
