use vstd::prelude::*;

verus! {

#[verifier::external_type_specification]
#[verifier::external_body]
pub struct ExNumber(serde_json::Number);

/// Relies on the derived `Clone` of serde_json::Number: the copy equals the number copied.
pub assume_specification[ <serde_json::Number as Clone>::clone ](n: &serde_json::Number) -> (r:
    serde_json::Number)
    ensures
        r == *n,
;

/// A semi-structured value: the in-memory form of every variable document.
/// An object is a list of entries; its keys are meant to be unique (see `wf`).
#[derive(Debug)]
pub enum Value {
    Null,
    Bool(bool),
    Number(serde_json::Number),
    String(String),
    Array(Vec<Value>),
    Object(Vec<(String, Value)>),
}

/// The mathematical value tree that a `Value` stands for.
pub enum Tree {
    Null,
    Bool(bool),
    Number(serde_json::Number),
    Str(Seq<char>),
    Array(Seq<Tree>),
    Object(Map<Seq<char>, Tree>),
}

/// The trees of a sequence of values, in order.
pub open spec fn trees_of(items: Seq<Value>) -> Seq<Tree>
    decreases items,
{
    if items.len() == 0 {
        Seq::empty()
    } else {
        trees_of(items.drop_last()).push(items.last().view())
    }
}

/// The map that a list of object entries stands for; a later entry hides an
/// earlier one with the same key.
pub open spec fn map_of(entries: Seq<(String, Value)>) -> Map<Seq<char>, Tree>
    decreases entries,
{
    if entries.len() == 0 {
        Map::empty()
    } else {
        map_of(entries.drop_last()).insert(entries.last().0@, entries.last().1.view())
    }
}

/// The keys of a list of object entries are pairwise distinct.
pub open spec fn keys_unique(entries: Seq<(String, Value)>) -> bool {
    forall|i: int, j: int|
        0 <= i < entries.len() && 0 <= j < entries.len() && i != j ==> entries[i].0@
            != entries[j].0@
}

impl Value {
    pub open spec fn view(self) -> Tree
        decreases self,
    {
        match self {
            Value::Null => Tree::Null,
            Value::Bool(b) => Tree::Bool(b),
            Value::Number(n) => Tree::Number(n),
            Value::String(s) => Tree::Str(s@),
            Value::Array(items) => Tree::Array(trees_of(items@)),
            Value::Object(entries) => Tree::Object(map_of(entries@)),
        }
    }

    /// Well formed: no object, at any depth, holds the same key twice.
    pub open spec fn wf(self) -> bool
        decreases self,
    {
        match self {
            Value::Array(items) => forall|i: int| 0 <= i < items.len() ==> (#[trigger] items[i]).wf(),
            Value::Object(entries) => keys_unique(entries@) && forall|i: int|
                0 <= i < entries.len() ==> (#[trigger] entries[i]).1.wf(),
            _ => true,
        }
    }
}


/// The tree of `base` after `overlay` is merged into it: where both are objects,
/// every key of the overlay is merged into the base's entry for it (a missing
/// entry counts as null) and keys of the base alone stay; in every other case
/// the overlay replaces the base.
pub open spec fn merged(base: Tree, overlay: Tree) -> Tree
    decreases overlay,
{
    match (base, overlay) {
        (Tree::Object(bm), Tree::Object(om)) => Tree::Object(
            Map::new(
                |k: Seq<char>| bm.contains_key(k) || om.contains_key(k),
                |k: Seq<char>|
                    if om.contains_key(k) {
                        merged(if bm.contains_key(k) { bm[k] } else { Tree::Null }, om[k])
                    } else {
                        bm[k]
                    },
            ),
        ),
        _ => overlay,
    }
}

/// The tree of `docs` merged one after another into an initial null.
pub open spec fn folded(docs: Seq<Tree>) -> Tree
    decreases docs,
{
    if docs.len() == 0 {
        Tree::Null
    } else {
        merged(folded(docs.drop_last()), docs.last())
    }
}

pub proof fn lemma_trees_of_index(items: Seq<Value>)
    ensures
        trees_of(items).len() == items.len(),
        forall|i: int| 0 <= i < items.len() ==> #[trigger] trees_of(items)[i] == items[i]@,
    decreases items,
{
    if items.len() > 0 {
        lemma_trees_of_index(items.drop_last());
    }
}

/// A key is in the map of some entries exactly when an entry holds it.
pub proof fn lemma_map_of_has(entries: Seq<(String, Value)>, key: Seq<char>)
    ensures
        map_of(entries).contains_key(key) <==> exists|j: int|
            0 <= j < entries.len() && #[trigger] entries[j].0@ == key,
    decreases entries,
{
    if entries.len() > 0 {
        let init = entries.drop_last();
        lemma_map_of_has(init, key);
        if map_of(entries).contains_key(key) && entries.last().0@ != key {
            let j = choose|j: int| 0 <= j < init.len() && #[trigger] init[j].0@ == key;
            assert(entries[j].0@ == key);
        }
        if exists|j: int| 0 <= j < entries.len() && #[trigger] entries[j].0@ == key {
            let j = choose|j: int| 0 <= j < entries.len() && #[trigger] entries[j].0@ == key;
            if j < entries.len() - 1 {
                assert(init[j].0@ == key);
            }
        }
    }
}

/// The last entry that holds a key gives that key's tree.
pub proof fn lemma_map_of_at(entries: Seq<(String, Value)>, j: int)
    requires
        0 <= j < entries.len(),
        forall|t: int| j < t < entries.len() ==> entries[t].0@ != entries[j].0@,
    ensures
        map_of(entries).contains_key(entries[j].0@),
        map_of(entries)[entries[j].0@] == entries[j].1@,
    decreases entries,
{
    let init = entries.drop_last();
    if j < entries.len() - 1 {
        assert forall|t: int| j < t < init.len() implies init[t].0@ != init[j].0@ by {
            assert(init[t] == entries[t]);
        }
        lemma_map_of_at(init, j);
        assert(entries[entries.len() - 1].0@ != entries[j].0@);
    }
}

/// Replacing the last entry that holds a key replaces that key's tree.
pub proof fn lemma_map_of_update(entries: Seq<(String, Value)>, j: int, e: (String, Value))
    requires
        0 <= j < entries.len(),
        entries[j].0@ == e.0@,
        forall|t: int| j < t < entries.len() ==> entries[t].0@ != e.0@,
    ensures
        map_of(entries.update(j, e)) == map_of(entries).insert(e.0@, e.1@),
    decreases entries,
{
    let upd = entries.update(j, e);
    let init = entries.drop_last();
    if j == entries.len() - 1 {
        assert(upd.drop_last() =~= init);
        assert(map_of(upd) =~= map_of(entries).insert(e.0@, e.1@));
    } else {
        assert(upd.drop_last() =~= init.update(j, e));
        lemma_map_of_update(init, j, e);
        assert(upd.last() == entries.last());
        assert(entries.last().0@ != e.0@);
        assert(map_of(upd) =~= map_of(entries).insert(e.0@, e.1@));
    }
}

/// Appending an entry sets its key's tree.
pub proof fn lemma_map_of_push(entries: Seq<(String, Value)>, e: (String, Value))
    ensures
        map_of(entries.push(e)) == map_of(entries).insert(e.0@, e.1@),
{
    assert(entries.push(e).drop_last() =~= entries);
}

/// Two entry lists with the same keys and trees, place by place, give one map.
pub proof fn lemma_map_of_congruent(a: Seq<(String, Value)>, b: Seq<(String, Value)>)
    requires
        a.len() == b.len(),
        forall|i: int| 0 <= i < a.len() ==> (#[trigger] a[i]).0@ == b[i].0@ && a[i].1@ == b[i].1@,
    ensures
        map_of(a) == map_of(b),
    decreases a,
{
    if a.len() > 0 {
        assert forall|i: int| 0 <= i < a.drop_last().len() implies (#[trigger] a.drop_last()[i]).0@ == b.drop_last()[i].0@ && a.drop_last()[i].1@ == b.drop_last()[i].1@ by {
            assert(a.drop_last()[i] == a[i]);
            assert(b.drop_last()[i] == b[i]);
        }
        lemma_map_of_congruent(a.drop_last(), b.drop_last());
    }
}

impl Value {
    /// A copy of the value, with the same tree.
    pub fn deep_copy(&self) -> (r: Value)
        ensures
            r@ == self@,
            self.wf() ==> r.wf(),
        decreases self,
    {
        match self {
            Value::Null => Value::Null,
            Value::Bool(b) => Value::Bool(*b),
            Value::Number(n) => Value::Number(n.clone()),
            Value::String(s) => Value::String(s.clone()),
            Value::Array(items) => {
                let mut out: Vec<Value> = Vec::new();
                let mut i: usize = 0;
                while i < items.len()
                    invariant
                        i <= items.len(),
                        out.len() == i,
                        *self == Value::Array(*items),
                        forall|j: int| 0 <= j < i ==> (#[trigger] out[j])@ == items[j]@ && (items[j].wf() ==> out[j].wf()),
                    decreases items.len() - i,
                {
                    proof {
                        assert(decreases_to!(*items => items[i as int]));
                        assert(decreases_to!(*self => self->Array_0));
                    }
                    let c = items[i].deep_copy();
                    out.push(c);
                    i += 1;
                }
                proof {
                    lemma_trees_of_index(out@);
                    lemma_trees_of_index(items@);
                    assert(trees_of(out@) =~= trees_of(items@));
                }
                Value::Array(out)
            },
            Value::Object(entries) => {
                let mut out: Vec<(String, Value)> = Vec::new();
                let mut i: usize = 0;
                while i < entries.len()
                    invariant
                        i <= entries.len(),
                        out.len() == i,
                        *self == Value::Object(*entries),
                        forall|j: int| 0 <= j < i ==> (#[trigger] out[j]).0@ == entries[j].0@ && out[j].1@ == entries[j].1@ && (entries[j].1.wf() ==> out[j].1.wf()),
                    decreases entries.len() - i,
                {
                    let k = entries[i].0.clone();
                    proof {
                        assert(decreases_to!(*entries => entries[i as int]));
                        assert(decreases_to!(*self => self->Object_0));
                        assert(decreases_to!(*self => entries[i as int].1));
                    }
                    let c = entries[i].1.deep_copy();
                    out.push((k, c));
                    i += 1;
                }
                proof {
                    lemma_map_of_congruent(out@, entries@);
                    if self.wf() {
                        assert forall|a: int, b: int| 0 <= a < out.len() && 0 <= b < out.len() && a != b implies out@[a].0@ != out@[b].0@ by {
                            assert(out[a].0@ == entries[a].0@);
                            assert(out[b].0@ == entries[b].0@);
                        }
                    }
                }
                Value::Object(out)
            },
        }
    }
}

impl Value {
    /// Whether no object, at any depth, holds the same key twice.
    pub fn is_well_formed(&self) -> (r: bool)
        ensures
            r == self.wf(),
        decreases self,
    {
        match self {
            Value::Array(items) => {
                let mut i: usize = 0;
                while i < items.len()
                    invariant
                        i <= items.len(),
                        *self == Value::Array(*items),
                        forall|t: int| 0 <= t < i ==> (#[trigger] items[t]).wf(),
                    decreases items.len() - i,
                {
                    proof {
                        assert(decreases_to!(*items => items[i as int]));
                        assert(decreases_to!(*self => self->Array_0));
                    }
                    if !items[i].is_well_formed() {
                        return false;
                    }
                    i += 1;
                }
                true
            },
            Value::Object(entries) => {
                let mut i: usize = 0;
                while i < entries.len()
                    invariant
                        i <= entries.len(),
                        *self == Value::Object(*entries),
                        forall|t: int| 0 <= t < i ==> (#[trigger] entries[t]).1.wf(),
                        forall|a: int, b: int|
                            0 <= a < i && 0 <= b < i && a != b ==> entries[a].0@ != entries[b].0@,
                    decreases entries.len() - i,
                {
                    proof {
                        assert(decreases_to!(*entries => entries[i as int]));
                        assert(decreases_to!(*self => self->Object_0));
                        assert(decreases_to!(*self => entries[i as int].1));
                    }
                    if !entries[i].1.is_well_formed() {
                        return false;
                    }
                    let mut j: usize = 0;
                    while j < i
                        invariant
                            j <= i < entries.len(),
                            *self == Value::Object(*entries),
                            forall|t: int| 0 <= t < j ==> entries[t].0@ != entries[i as int].0@,
                        decreases i - j,
                    {
                        if entries[j].0 == entries[i].0 {
                            proof {
                                assert(entries@[j as int].0@ == entries@[i as int].0@);
                                assert(!keys_unique(entries@));
                            }
                            return false;
                        }
                        j += 1;
                    }
                    i += 1;
                }
                true
            },
            _ => true,
        }
    }
}

/// The position of the last entry that holds `key`, if any.
fn find_last_key(entries: &Vec<(String, Value)>, key: &String) -> (r: Option<usize>)
    ensures
        match r {
            Some(j) => j < entries.len() && entries[j as int].0@ == key@ && forall|t: int|
                j < t < entries.len() ==> entries[t].0@ != key@,
            None => forall|t: int| 0 <= t < entries.len() ==> entries[t].0@ != key@,
        },
{
    let mut i: usize = entries.len();
    while i > 0
        invariant
            i <= entries.len(),
            forall|t: int| i <= t < entries.len() ==> entries[t].0@ != key@,
        decreases i,
    {
        i -= 1;
        if entries[i].0 == *key {
            return Some(i);
        }
    }
    None
}

/// Merges `overlay` into `base`: objects are merged key by key, at every depth,
/// and the overlay wins everywhere else.
pub fn merge(base: &mut Value, overlay: &Value)
    requires
        overlay.wf(),
    ensures
        final(base)@ == merged(old(base)@, overlay@),
        old(base).wf() ==> final(base).wf(),
    decreases overlay,
{
    let mut current = Value::Null;
    std::mem::swap(base, &mut current);
    match (current, overlay) {
        (Value::Object(mut target), Value::Object(entries)) => {
            let ghost start = target@;
            let ghost was_wf = old(base).wf();
            proof {
                assert(entries@.take(0) =~= Seq::<(String, Value)>::empty());
                if let Tree::Object(m) = merged(
                    Tree::Object(map_of(start)),
                    Tree::Object(map_of(entries@.take(0))),
                ) {
                    assert(m =~= map_of(start));
                }
            }
            let mut i: usize = 0;
            while i < entries.len()
                invariant
                    i <= entries.len(),
                    *overlay == Value::Object(*entries),
                    overlay.wf(),
                    Tree::Object(map_of(target@)) == merged(
                        Tree::Object(map_of(start)),
                        Tree::Object(map_of(entries@.take(i as int))),
                    ),
                    was_wf ==> keys_unique(target@) && forall|t: int|
                        0 <= t < target.len() ==> (#[trigger] target[t]).1.wf(),
                decreases entries.len() - i,
            {
                let key = &entries[i].0;
                let item = &entries[i].1;
                proof {
                    assert(decreases_to!(*entries => entries[i as int]));
                    assert(decreases_to!(*overlay => overlay->Object_0));
                    assert(decreases_to!(*overlay => entries[i as int].1));
                    let prefix = entries@.take(i as int);
                    assert(entries@.take(i + 1).drop_last() =~= prefix);
                    lemma_map_of_has(prefix, key@);
                    if map_of(prefix).contains_key(key@) {
                        let j = choose|j: int| 0 <= j < prefix.len() && #[trigger] prefix[j].0@ == key@;
                        assert(entries[j].0@ == entries[i as int].0@);
                    }
                    lemma_map_of_has(target@, key@);
                }
                let ghost before = target@;
                match find_last_key(&target, key) {
                    Some(j) => {
                        let (k, mut child) = target.remove(j);
                        proof {
                            lemma_map_of_at(before, j as int);
                        }
                        merge(&mut child, item);
                        target.insert(j, (k, child));
                        proof {
                            assert(target@ =~= before.update(j as int, target@[j as int]));
                            lemma_map_of_update(before, j as int, target@[j as int]);
                            if was_wf {
                                assert forall|a: int, b: int|
                                    0 <= a < target.len() && 0 <= b < target.len() && a != b
                                    implies target@[a].0@ != target@[b].0@ by {
                                    assert(before[a].0@ == target@[a].0@);
                                    assert(before[b].0@ == target@[b].0@);
                                }
                                assert forall|t: int| 0 <= t < target.len() implies (#[trigger] target[t]).1.wf() by {
                                    if t != j {
                                        assert(before[t] == target[t]);
                                    }
                                }
                            }
                        }
                    },
                    None => {
                        let mut child = Value::Null;
                        merge(&mut child, item);
                        target.push((key.clone(), child));
                        proof {
                            lemma_map_of_push(before, target@.last());
                            assert(target@ =~= before.push(target@.last()));
                            if was_wf {
                                assert forall|a: int, b: int|
                                    0 <= a < target.len() && 0 <= b < target.len() && a != b
                                    implies target@[a].0@ != target@[b].0@ by {
                                    if a < before.len() {
                                        assert(before[a] == target@[a]);
                                    }
                                    if b < before.len() {
                                        assert(before[b] == target@[b]);
                                    }
                                }
                                assert forall|t: int| 0 <= t < target.len() implies (#[trigger] target[t]).1.wf() by {
                                    if t < before.len() {
                                        assert(before[t] == target[t]);
                                    }
                                }
                            }
                        }
                    },
                }
                proof {
                    let bm = map_of(start);
                    let om = map_of(entries@.take(i as int));
                    let om2 = map_of(entries@.take(i + 1));
                    assert(om2 == om.insert(key@, item@));
                    if let (Tree::Object(m1), Tree::Object(m2)) = (
                        merged(Tree::Object(bm), Tree::Object(om2)),
                        merged(Tree::Object(bm), Tree::Object(om)),
                    ) {
                        assert(map_of(target@) =~= m1);
                    }
                }
                i += 1;
            }
            proof {
                assert(entries@.take(entries.len() as int) =~= entries@);
            }
            *base = Value::Object(target);
        },
        (_, _) => {
            *base = overlay.deep_copy();
        },
    }
}

/// Merges `docs` one after another into an initial null.
pub fn merge_all(docs: &Vec<Value>) -> (r: Value)
    requires
        forall|i: int| 0 <= i < docs.len() ==> (#[trigger] docs[i]).wf(),
    ensures
        r@ == folded(trees_of(docs@)),
        r.wf(),
{
    let mut acc = Value::Null;
    let mut i: usize = 0;
    while i < docs.len()
        invariant
            i <= docs.len(),
            forall|t: int| 0 <= t < docs.len() ==> (#[trigger] docs[t]).wf(),
            acc@ == folded(trees_of(docs@.take(i as int))),
            acc.wf(),
        decreases docs.len() - i,
    {
        merge(&mut acc, &docs[i]);
        proof {
            let prev = docs@.take(i as int);
            assert(docs@.take(i + 1) =~= prev.push(docs[i as int]));
            assert(prev.push(docs[i as int]).drop_last() =~= prev);
            lemma_fold_step(trees_of(prev), docs[i as int]@);
        }
        i += 1;
    }
    proof {
        assert(docs@.take(docs.len() as int) =~= docs@);
    }
    acc
}

/// Folding a further document merges it into the fold of those before it.
pub proof fn lemma_fold_step(docs: Seq<Tree>, next: Tree)
    ensures
        folded(docs.push(next)) == merged(folded(docs), next),
{
    assert(docs.push(next).drop_last() =~= docs);
}

/// Merging `c` into the merge of `b` into `a` is the fold of `a`, `b`, `c` in
/// that order.
pub proof fn lemma_fold_in_order(a: Tree, b: Tree, c: Tree)
    ensures
        folded(seq![a, b, c]) == merged(merged(a, b), c),
{
    lemma_fold_step(seq![a, b], c);
    lemma_fold_step(seq![a], b);
    lemma_fold_step(Seq::empty(), a);
    assert(seq![a, b, c] =~= seq![a, b].push(c));
    assert(seq![a, b] =~= seq![a].push(b));
    assert(seq![a] =~= Seq::<Tree>::empty().push(a));
}

/// The order of overlays matters: merging objects is not commutative.
pub proof fn lemma_order_matters()
    ensures
        exists|a: Tree, b: Tree, c: Tree|
            a is Object && b is Object && c is Object && merged(merged(a, b), c) != merged(
                merged(a, c),
                b,
            ),
{
    let k = seq!['k'];
    let a = Tree::Object(Map::empty());
    let b = Tree::Object(Map::empty().insert(k, Tree::Bool(true)));
    let c = Tree::Object(Map::empty().insert(k, Tree::Bool(false)));
    let ab = merged(a, b);
    let ac = merged(a, c);
    assert(ab->Object_0.contains_key(k));
    assert(ab->Object_0[k] == merged(Tree::Null, Tree::Bool(true)));
    assert(ac->Object_0[k] == merged(Tree::Null, Tree::Bool(false)));
    let abc = merged(ab, c);
    let acb = merged(ac, b);
    assert(abc->Object_0[k] == merged(ab->Object_0[k], Tree::Bool(false)));
    assert(acb->Object_0[k] == merged(ac->Object_0[k], Tree::Bool(true)));
    assert(abc->Object_0[k] == Tree::Bool(false));
    assert(acb->Object_0[k] == Tree::Bool(true));
    assert(abc != acb);
}

/// Where base and overlay are not both objects, the overlay replaces the base
/// whole.
pub proof fn lemma_mismatch_replaces(base: Tree, overlay: Tree)
    requires
        !(base is Object && overlay is Object),
    ensures
        merged(base, overlay) == overlay,
{
}

/// Merging two objects keeps the keys of both; a key of the overlay whose value
/// is not an object takes the overlay's value, and a key of the base alone keeps
/// its value.
pub proof fn lemma_objects_union(bm: Map<Seq<char>, Tree>, om: Map<Seq<char>, Tree>)
    ensures
        merged(Tree::Object(bm), Tree::Object(om)) is Object,
        forall|k: Seq<char>|
            #[trigger] merged(Tree::Object(bm), Tree::Object(om))->Object_0.contains_key(k)
                <==> bm.contains_key(k) || om.contains_key(k),
        forall|k: Seq<char>|
            om.contains_key(k) && !(om[k] is Object) ==> #[trigger] merged(
                Tree::Object(bm),
                Tree::Object(om),
            )->Object_0[k] == om[k],
        forall|k: Seq<char>|
            bm.contains_key(k) && !om.contains_key(k) ==> #[trigger] merged(
                Tree::Object(bm),
                Tree::Object(om),
            )->Object_0[k] == bm[k],
{
    assert forall|k: Seq<char>|
        om.contains_key(k) && !(om[k] is Object) implies #[trigger] merged(
            Tree::Object(bm),
            Tree::Object(om),
        )->Object_0[k] == om[k] by {
        lemma_mismatch_replaces(if bm.contains_key(k) { bm[k] } else { Tree::Null }, om[k]);
    }
}

/// With no documents the merged variables are null.
pub proof fn lemma_no_documents()
    ensures
        folded(Seq::empty()) == Tree::Null,
{
}

} // verus!
