//! Collections that keep track of variables while parsing, and the line table of the source.

use fnv::{FnvBuildHasher, FnvHashSet};
use line_col::LineColLookup;
use quickscope::ScopeSet;
use std::collections::HashSet;
use std::hash::RandomState;
use vstd::prelude::*;
use vstd::string::StringSliceAdditionalSpecFns;

verus! {

/// `quickscope::ScopeSet`: a set of names in layers. What it holds is named by [`scope_layers`].
#[verifier::external_type_specification]
#[verifier::external_body]
#[verifier::reject_recursive_types(T)]
#[verifier::reject_recursive_types(S)]
pub struct ExScopeSet<T, S: std::hash::BuildHasher>(ScopeSet<T, S>);

/// `fnv::FnvHasher`: the hash function of `fnv`. Nothing is claimed of it.
#[verifier::external_type_specification]
#[verifier::external_body]
pub struct ExFnvHasher(fnv::FnvHasher);

/// `std::hash::BuildHasherDefault`: makes hashers. Nothing is claimed of it.
#[verifier::external_type_specification]
#[verifier::external_body]
#[verifier::reject_recursive_types(H)]
pub struct ExBuildHasherDefault<H>(std::hash::BuildHasherDefault<H>);

/// The variables in each layer of a scope set, the bottom layer first.
pub uninterp spec fn scope_layers(set: ScopeSet<String, RandomState>) -> Seq<Set<Seq<char>>>;

/// The names that a set of captured variables holds.
pub uninterp spec fn name_set(set: HashSet<String, FnvBuildHasher>) -> Set<Seq<char>>;

/// The highest layer that holds `name`, counted from the bottom.
pub open spec fn height_in(layers: Seq<Set<Seq<char>>>, name: Seq<char>) -> Option<nat>
    decreases layers.len(),
{
    if layers.len() == 0 {
        None
    } else if layers.last().contains(name) {
        Some((layers.len() - 1) as nat)
    } else {
        height_in(layers.drop_last(), name)
    }
}

/// The layer `depth` below the top one, or the bottom one if there are not that many.
pub open spec fn layer_below(count: nat, depth: nat) -> int {
    if depth < count {
        count - 1 - depth
    } else {
        0
    }
}

/// The layers with `name` added to the layer `depth` below the top one.
pub open spec fn with_name_below(
    layers: Seq<Set<Seq<char>>>,
    name: Seq<char>,
    depth: nat,
) -> Seq<Set<Seq<char>>> {
    let target = layer_below(layers.len(), depth);
    layers.update(target, layers[target].insert(name))
}

/// `ScopeSet::default` makes a set with one layer, which is empty.
#[verifier::external_body]
pub(crate) fn new_scopes() -> (set: ScopeSet<String, RandomState>)
    ensures
        scope_layers(set) == seq![Set::<Seq<char>>::empty()],
{
    ScopeSet::default()
}

/// `ScopeSet::depth` counts the layers.
#[verifier::external_body]
pub(crate) fn scope_depth(set: &ScopeSet<String, RandomState>) -> (depth: usize)
    ensures
        depth == scope_layers(*set).len(),
{
    set.depth()
}

/// `ScopeSet::push_layer` adds an empty layer on top.
#[verifier::external_body]
pub(crate) fn push_scope(set: &mut ScopeSet<String, RandomState>)
    ensures
        scope_layers(*final(set)) == scope_layers(*old(set)).push(Set::empty()),
{
    set.push_layer()
}

/// `ScopeSet::pop_layer` takes the top layer away, except that it leaves the bottom layer alone.
/// It says whether it took one.
#[verifier::external_body]
pub(crate) fn pop_scope(set: &mut ScopeSet<String, RandomState>) -> (popped: bool)
    ensures
        popped == (scope_layers(*old(set)).len() > 1),
        scope_layers(*final(set)) == if popped {
            scope_layers(*old(set)).drop_last()
        } else {
            scope_layers(*old(set))
        },
{
    set.pop_layer()
}

/// `ScopeSet::define` adds a name to the top layer. Every scope set has a layer.
#[verifier::external_body]
pub(crate) fn define_in_scope(set: &mut ScopeSet<String, RandomState>, name: String)
    requires
        scope_layers(*old(set)).len() > 0,
    ensures
        scope_layers(*final(set)) == with_name_below(scope_layers(*old(set)), name@, 0),
{
    set.define(name)
}

/// `ScopeSet::define_parent` adds a name to the layer that many layers below the top one, or to
/// the bottom layer if there are not that many. It computes `depth + 1`, so `depth` is not the
/// largest number.
#[verifier::external_body]
pub(crate) fn define_in_parent_scope(
    set: &mut ScopeSet<String, RandomState>,
    name: String,
    depth: usize,
)
    requires
        scope_layers(*old(set)).len() > 0,
        depth < usize::MAX,
    ensures
        scope_layers(*final(set)) == with_name_below(
            scope_layers(*old(set)),
            name@,
            depth as nat,
        ),
{
    set.define_parent(name, depth)
}

/// `ScopeSet::height_of` gives the highest layer that holds a name, counted from the bottom.
#[verifier::external_body]
pub(crate) fn scope_height_of(set: &ScopeSet<String, RandomState>, name: &str) -> (height: Option<
    usize,
>)
    ensures
        match height {
            Some(height) => height_in(scope_layers(*set), name@) == Some(height as nat),
            None => height_in(scope_layers(*set), name@) is None,
        },
{
    set.height_of(name)
}

/// `FnvHashSet::default` makes an empty set.
#[verifier::external_body]
pub(crate) fn new_name_set() -> (set: HashSet<String, FnvBuildHasher>)
    ensures
        name_set(set) == Set::<Seq<char>>::empty(),
{
    FnvHashSet::default()
}

/// `HashSet::insert`, on a set with the hasher of `fnv`, adds an element and says whether it was
/// absent.
#[verifier::external_body]
pub(crate) fn insert_name(set: &mut HashSet<String, FnvBuildHasher>, name: String) -> (added: bool)
    ensures
        name_set(*final(set)) == name_set(*old(set)).insert(name@),
        added == !name_set(*old(set)).contains(name@),
{
    set.insert(name)
}

/// `HashSet::drain`, on a set with the hasher of `fnv`, hands out each element once, in an order
/// that is left open.
#[verifier::external_body]
pub(crate) fn drain_names(set: HashSet<String, FnvBuildHasher>) -> (names: Vec<String>)
    ensures
        names@.map_values(|name: String| name@).to_set() == name_set(set),
        names@.map_values(|name: String| name@).no_duplicates(),
{
    let mut set = set;
    set.drain().collect()
}

/// How many line breaks the first `index` bytes hold.
pub open spec fn line_breaks(source: Seq<u8>, index: nat) -> nat
    decreases index,
{
    if index == 0 {
        0
    } else {
        line_breaks(source, (index - 1) as nat) + if source[index - 1] == 10u8 {
            1nat
        } else {
            0
        }
    }
}

/// Where the line starts that the byte at `index` is on: just after the last line break before it.
pub open spec fn line_start(source: Seq<u8>, index: nat) -> nat
    decreases index,
{
    if index == 0 || source[index - 1] == 10u8 {
        index
    } else {
        line_start(source, (index - 1) as nat)
    }
}

/// The line of the byte at `index`, counted from 1.
pub open spec fn line_of(source: Seq<u8>, index: nat) -> nat {
    line_breaks(source, index) + 1
}

/// The byte column of the byte at `index`, counted from 1.
pub open spec fn col_of(source: Seq<u8>, index: nat) -> int {
    index - line_start(source, index) + 1
}

/// `line_col::LineColLookup`: the line table of a source. The source is named by [`lookup_source`].
#[verifier::external_type_specification]
#[verifier::external_body]
pub struct ExLineColLookup<'source>(LineColLookup<'source>);

/// The bytes of the source that a line table was made for.
pub uninterp spec fn lookup_source(lookup: LineColLookup<'_>) -> Seq<u8>;

/// `LineColLookup::new` makes the line table of a source.
#[verifier::external_body]
pub(crate) fn new_lookup<'source>(source: &'source str) -> (lookup: LineColLookup<'source>)
    ensures
        lookup_source(lookup) == source.spec_bytes(),
{
    LineColLookup::new(source)
}

/// `LineColLookup::get` gives the line and the byte column of a byte offset, both counted from 1.
/// The offset may be the length of the source, and no more.
#[verifier::external_body]
pub(crate) fn place_of(lookup: &LineColLookup<'_>, index: usize) -> (place: (usize, usize))
    requires
        index <= lookup_source(*lookup).len(),
    ensures
        place.0 == line_of(lookup_source(*lookup), index as nat),
        place.1 == col_of(lookup_source(*lookup), index as nat),
{
    lookup.get(index)
}

} // verus!
