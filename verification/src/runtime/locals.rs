//! Local variables in layers of scopes.

use fnv::FnvBuildHasher;
use quickscope::ScopeMap;
use vstd::prelude::*;
use crate::compiler::scopes::layer_below;
use crate::value::{RantVar, ValueView};

verus! {

/// `quickscope::ScopeMap`: variables in layers. What it holds is named by [`local_layers`], and the
/// names it has ever held by [`known_names`].
#[verifier::external_type_specification]
#[verifier::external_body]
#[verifier::reject_recursive_types(K)]
#[verifier::reject_recursive_types(V)]
#[verifier::reject_recursive_types(S)]
pub struct ExScopeMap<K, V, S: std::hash::BuildHasher>(ScopeMap<K, V, S>);

/// The variables in each layer of a scope map, the bottom layer first.
pub uninterp spec fn local_layers(map: ScopeMap<String, RantVar, FnvBuildHasher>) -> Seq<
    Map<Seq<char>, ValueView>,
>;

/// The names that a variable was ever defined under in a scope map.
pub uninterp spec fn known_names(map: ScopeMap<String, RantVar, FnvBuildHasher>) -> Set<Seq<char>>;

/// The topmost layer that holds a name.
pub open spec fn holder(layers: Seq<Map<Seq<char>, ValueView>>, id: Seq<char>) -> Option<int>
    decreases layers.len(),
{
    if layers.len() == 0 {
        None
    } else if layers.last().dom().contains(id) {
        Some(layers.len() - 1)
    } else {
        holder(layers.drop_last(), id)
    }
}

/// The layers without the `depth` topmost ones.
pub open spec fn without_top(layers: Seq<Map<Seq<char>, ValueView>>, depth: nat) -> Seq<
    Map<Seq<char>, ValueView>,
> {
    if depth < layers.len() {
        layers.take(layers.len() - depth)
    } else {
        Seq::empty()
    }
}

/// Every value that a name has, the topmost first.
pub open spec fn pile(layers: Seq<Map<Seq<char>, ValueView>>, id: Seq<char>) -> Seq<ValueView>
    decreases layers.len(),
{
    if layers.len() == 0 {
        Seq::empty()
    } else if layers.last().dom().contains(id) {
        seq![layers.last()[id]] + pile(layers.drop_last(), id)
    } else {
        pile(layers.drop_last(), id)
    }
}

/// The layers with a name given a value in layer `i`.
pub open spec fn with_local(
    layers: Seq<Map<Seq<char>, ValueView>>,
    i: int,
    id: Seq<char>,
    value: ValueView,
) -> Seq<Map<Seq<char>, ValueView>> {
    layers.update(i, layers[i].insert(id, value))
}

/// The layers with a name defined in the layer `depth` below the top one, or in the bottom layer if
/// there are not that many.
///
/// If the name is new to that layer and a lower layer holds it, the nearest such layer gets the
/// value, and its former value goes to the layer where the name was defined.
pub open spec fn with_local_below(
    layers: Seq<Map<Seq<char>, ValueView>>,
    id: Seq<char>,
    value: ValueView,
    depth: nat,
) -> Seq<Map<Seq<char>, ValueView>> {
    let target = layer_below(layers.len(), depth);
    match holder(layers.take(target), id) {
        Some(lower) => if layers[target].dom().contains(id) {
            with_local(layers, target, id, value)
        } else {
            with_local(with_local(layers, lower, id, value), target, id, layers[lower][id])
        },
        None => with_local(layers, target, id, value),
    }
}

/// The layer that holds a name lies among the layers.
pub proof fn lemma_holder(layers: Seq<Map<Seq<char>, ValueView>>, id: Seq<char>)
    ensures
        match holder(layers, id) {
            Some(i) => {
                &&& 0 <= i < layers.len()
                &&& layers[i].dom().contains(id)
                &&& forall|j: int|
                    i < j < layers.len() ==> !(#[trigger] layers[j]).dom().contains(id)
            },
            None => forall|j: int|
                0 <= j < layers.len() ==> !(#[trigger] layers[j]).dom().contains(id),
        },
    decreases layers.len(),
{
    if layers.len() > 0 && !layers.last().dom().contains(id) {
        let lower = layers.drop_last();
        lemma_holder(lower, id);
        assert forall|j: int| 0 <= j < lower.len() implies lower[j] == #[trigger] layers[j] by {}
    }
}

/// `ScopeMap::default` makes a map with one layer, which is empty.
#[verifier::external_body]
pub(crate) fn new_locals() -> (map: ScopeMap<String, RantVar, FnvBuildHasher>)
    ensures
        local_layers(map) == seq![Map::<Seq<char>, ValueView>::empty()],
        known_names(map) == Set::<Seq<char>>::empty(),
{
    ScopeMap::default()
}

/// `ScopeMap::push_layer` adds an empty layer on top.
#[verifier::external_body]
pub(crate) fn push_locals(map: &mut ScopeMap<String, RantVar, FnvBuildHasher>)
    ensures
        local_layers(*final(map)) == local_layers(*old(map)).push(Map::empty()),
        known_names(*final(map)) == known_names(*old(map)),
{
    map.push_layer()
}

/// `ScopeMap::pop_layer` takes the top layer away, except that it leaves the bottom layer alone. It
/// says whether it took one. Names stay known.
#[verifier::external_body]
pub(crate) fn pop_locals(map: &mut ScopeMap<String, RantVar, FnvBuildHasher>) -> (popped: bool)
    ensures
        popped == (local_layers(*old(map)).len() > 1),
        local_layers(*final(map)) == if popped {
            local_layers(*old(map)).drop_last()
        } else {
            local_layers(*old(map))
        },
        known_names(*final(map)) == known_names(*old(map)),
{
    map.pop_layer()
}

/// `ScopeMap::define` gives a name a variable in the top layer. Every scope map has a layer.
#[verifier::external_body]
pub(crate) fn define_local(
    map: &mut ScopeMap<String, RantVar, FnvBuildHasher>,
    id: String,
    var: RantVar,
)
    requires
        local_layers(*old(map)).len() > 0,
    ensures
        local_layers(*final(map)) == with_local(
            local_layers(*old(map)),
            local_layers(*old(map)).len() - 1,
            id@,
            var@,
        ),
        known_names(*final(map)) == known_names(*old(map)).insert(id@),
{
    map.define(id, var)
}

/// `ScopeMap::define_parent` gives a name a variable in the layer that many layers below the top
/// one, or in the bottom layer if there are not that many. Where the name is new to that layer but
/// a lower one holds it, the new variable and that of the nearest lower layer trade places. The
/// function computes `depth + 1`, so `depth` is not the largest number.
#[verifier::external_body]
pub(crate) fn define_parent_local(
    map: &mut ScopeMap<String, RantVar, FnvBuildHasher>,
    id: String,
    var: RantVar,
    depth: usize,
)
    requires
        local_layers(*old(map)).len() > 0,
        depth < usize::MAX,
    ensures
        local_layers(*final(map)) == with_local_below(
            local_layers(*old(map)),
            id@,
            var@,
            depth as nat,
        ),
        known_names(*final(map)) == known_names(*old(map)).insert(id@),
{
    map.define_parent(id, var, depth)
}

/// `ScopeMap::get` gives the topmost variable of a name.
#[verifier::external_body]
pub(crate) fn get_local<'a>(map: &'a ScopeMap<String, RantVar, FnvBuildHasher>, id: &str) -> (var:
    Option<&'a RantVar>)
    ensures
        match var {
            Some(var) => holder(local_layers(*map), id@) matches Some(i) && var@ == local_layers(
                *map,
            )[i][id@],
            None => holder(local_layers(*map), id@) is None,
        },
{
    map.get(id)
}

/// `ScopeMap::get_mut` gives the topmost variable of a name, to be changed.
#[verifier::external_body]
pub(crate) fn get_local_mut<'a>(
    map: &'a mut ScopeMap<String, RantVar, FnvBuildHasher>,
    id: &str,
) -> (var: Option<&'a mut RantVar>)
    ensures
        match var {
            Some(var) => holder(local_layers(*old(map)), id@) matches Some(i) && var@
                == local_layers(*old(map))[i][id@] && local_layers(*final(map)) == with_local(
                local_layers(*old(map)),
                i,
                id@,
                final(var)@,
            ),
            None => holder(local_layers(*old(map)), id@) is None && local_layers(*final(map))
                == local_layers(*old(map)),
        },
        known_names(*final(map)) == known_names(*old(map)),
{
    map.get_mut(id)
}

/// `ScopeMap::get_parent` gives the topmost variable of a name below the top `depth` layers.
#[verifier::external_body]
pub(crate) fn get_parent_local<'a>(
    map: &'a ScopeMap<String, RantVar, FnvBuildHasher>,
    id: &str,
    depth: usize,
) -> (var: Option<&'a RantVar>)
    ensures
        match var {
            Some(var) => holder(without_top(local_layers(*map), depth as nat), id@) matches Some(i)
                && var@ == local_layers(*map)[i][id@],
            None => holder(without_top(local_layers(*map), depth as nat), id@) is None,
        },
{
    map.get_parent(id, depth)
}

/// `ScopeMap::get_parent_mut` gives the topmost variable of a name below the top `depth` layers, to
/// be changed.
#[verifier::external_body]
pub(crate) fn get_parent_local_mut<'a>(
    map: &'a mut ScopeMap<String, RantVar, FnvBuildHasher>,
    id: &str,
    depth: usize,
) -> (var: Option<&'a mut RantVar>)
    ensures
        match var {
            Some(var) => holder(
                without_top(local_layers(*old(map)), depth as nat),
                id@,
            ) matches Some(i) && var@ == local_layers(*old(map))[i][id@] && local_layers(
                *final(map),
            ) == with_local(local_layers(*old(map)), i, id@, final(var)@),
            None => holder(without_top(local_layers(*old(map)), depth as nat), id@) is None
                && local_layers(*final(map)) == local_layers(*old(map)),
        },
        known_names(*final(map)) == known_names(*old(map)),
{
    map.get_parent_mut(id, depth)
}

pub open spec fn var_views(vars: Seq<&RantVar>) -> Seq<ValueView> {
    vars.map_values(|var: &RantVar| var@)
}

/// `ScopeMap::get_all` gives every variable of a name, the topmost first; nothing if the name was
/// never defined. A name that was defined, but in no layer that is left, has no variables.
#[verifier::external_body]
pub(crate) fn get_all_locals<'a>(
    map: &'a ScopeMap<String, RantVar, FnvBuildHasher>,
    id: &str,
) -> (vars: Option<Vec<&'a RantVar>>)
    ensures
        vars is Some == known_names(*map).contains(id@),
        match vars {
            Some(vars) => var_views(vars@) == pile(local_layers(*map), id@),
            None => pile(local_layers(*map), id@) == Seq::<ValueView>::empty(),
        },
{
    map.get_all(id).map(|vars| vars.collect())
}

/// `ScopeMap::get_parents` gives every variable of a name below the top `depth` layers, the topmost
/// first; nothing if the name was never defined.
#[verifier::external_body]
pub(crate) fn get_parent_locals<'a>(
    map: &'a ScopeMap<String, RantVar, FnvBuildHasher>,
    id: &str,
    depth: usize,
) -> (vars: Option<Vec<&'a RantVar>>)
    ensures
        vars is Some == known_names(*map).contains(id@),
        match vars {
            Some(vars) => var_views(vars@) == pile(
                without_top(local_layers(*map), depth as nat),
                id@,
            ),
            None => pile(without_top(local_layers(*map), depth as nat), id@) == Seq::<
                ValueView,
            >::empty(),
        },
{
    map.get_parents(id, depth).map(|vars| vars.collect())
}

} // verus!
