//! The nodes of a shader's graph as they are drawn: which of them show what they
//! look like, and where each of them stands.
//!
//! A node never moves on its own. What the file says of its place wins. Every
//! other place is kept for the session from the moment it is first known, under
//! two names: one that survives rewiring, and one that survives renaming.

use crate::scene_tab::Rgba;
use crate::table::Table;
use crate::text::{chars_of, copy_of, decimal, decimal_text, joined, spells};
use std::collections::HashMap;
use vstd::prelude::*;

verus! {

broadcast use vstd::std_specs::hash::group_hash_axioms;

// ---- nodes -----------------------------------------------------------------

/// A place on the canvas: the bits of its two coordinates.
#[derive(Clone, Copy, Debug, PartialEq, Eq, Structural)]
pub struct Spot {
    pub x: u32,
    pub y: u32,
}

/// What the key of a node stands for.
#[derive(Clone, Copy, Debug, PartialEq, Eq, Structural)]
pub enum KeyKind {
    /// The end of the graph.
    Out,
    /// A value that has a name.
    Let,
    /// A value that has none.
    Anon,
    /// Anything else: a knob, a texture, an input.
    Other,
}

/// What a node does.
pub enum NodeKind {
    /// An operation of the library, of this category.
    Op { category: String },
    VecCtor,
    Binary,
    Neg,
    Swizzle,
    Constant,
    Input,
    Uniform,
    Texture,
    Out,
}

/// An input of a node.
#[derive(Clone, Copy, Debug, PartialEq, Eq, Structural)]
pub struct Port {
    /// The place in the shader that it feeds.
    pub site: u64,
    /// The node that is wired to it.
    pub wired: Option<u64>,
}

/// A node of the graph.
pub struct GNode {
    /// The number that stands for it.
    pub key: u64,
    pub key_kind: KeyKind,
    pub kind: NodeKind,
    pub name: Option<String>,
    /// What its operation is called.
    pub op_label: String,
    pub inputs: Vec<Port>,
    pub pos: Spot,
    /// Does the file say where it stands?
    pub placed: bool,
}

/// Does a node show what it looks like? Knobs and constants show their value
/// already.
pub open spec fn is_previewable(kind: NodeKind) -> bool {
    !(kind is Uniform) && !(kind is Constant)
}

/// Does a node show what it looks like?
pub fn previewable(n: &GNode) -> (out: bool)
    ensures
        out == is_previewable(n.kind),
{
    match n.kind {
        NodeKind::Uniform => false,
        NodeKind::Constant => false,
        _ => true,
    }
}

/// The edge of the picture of what a node looks like.
pub const PREVIEW_SIDE: u32 = 148;

/// What the picture and the gap below it take.
pub const PREVIEW_ROOM: u32 = 154;

/// The room that is kept for the picture when nodes are laid out. It does not
/// depend on whether the picture is shown, so that a layout is always the same.
pub fn graph_pad(n: &GNode) -> (out: u32)
    ensures
        out == if is_previewable(n.kind) {
            PREVIEW_ROOM
        } else {
            0
        },
{
    if previewable(n) {
        PREVIEW_ROOM
    } else {
        0
    }
}

/// Is the picture of a node shown?
pub fn shows_preview(n: &GNode, previews_on: bool, hidden: bool) -> (out: bool)
    ensures
        out == (previews_on && is_previewable(n.kind) && !hidden),
{
    previews_on && previewable(n) && !hidden
}

/// The type of a value.
#[derive(Clone, Copy, Debug, PartialEq, Eq, Structural)]
pub enum ValueType {
    Float,
    Vec2,
    Vec3,
    Vec4,
}

/// The colour of a port, or `None` for the colour of faint text.
pub open spec fn port_colour_of(ty: Option<ValueType>, texture: bool) -> Option<Rgba> {
    if texture {
        Some(Rgba { r: 190, g: 140, b: 255, a: 255 })
    } else {
        match ty {
            Some(ValueType::Float) => Some(Rgba { r: 150, g: 170, b: 190, a: 255 }),
            Some(ValueType::Vec2) => Some(Rgba { r: 120, g: 200, b: 120, a: 255 }),
            Some(ValueType::Vec3) => Some(Rgba { r: 230, g: 200, b: 90, a: 255 }),
            Some(ValueType::Vec4) => Some(Rgba { r: 230, g: 140, b: 200, a: 255 }),
            None => None,
        }
    }
}

/// The colour of a port, by the type of its value, or `None` for the colour of
/// faint text.
pub fn port_color(ty: Option<ValueType>, is_texture: bool) -> (out: Option<Rgba>)
    ensures
        out == port_colour_of(ty, is_texture),
{
    if is_texture {
        return Some(Rgba { r: 190, g: 140, b: 255, a: 255 });
    }
    match ty {
        Some(ValueType::Float) => Some(Rgba { r: 150, g: 170, b: 190, a: 255 }),
        Some(ValueType::Vec2) => Some(Rgba { r: 120, g: 200, b: 120, a: 255 }),
        Some(ValueType::Vec3) => Some(Rgba { r: 230, g: 200, b: 90, a: 255 }),
        Some(ValueType::Vec4) => Some(Rgba { r: 230, g: 140, b: 200, a: 255 }),
        None => None,
    }
}

/// The colour of an operation, by its category, or `None` for the colour of faint
/// text.
pub open spec fn category_colour(category: Seq<char>) -> Option<Rgba> {
    if category == "math"@ {
        Some(Rgba { r: 120, g: 140, b: 190, a: 255 })
    } else if category == "noise"@ {
        Some(Rgba { r: 80, g: 180, b: 170, a: 255 })
    } else if category == "color"@ {
        Some(Rgba { r: 220, g: 140, b: 70, a: 255 })
    } else if category == "texture"@ {
        Some(Rgba { r: 190, g: 140, b: 255, a: 255 })
    } else if category == "sdf"@ {
        Some(Rgba { r: 120, g: 190, b: 110, a: 255 })
    } else if category == "engine"@ {
        Some(Rgba { r: 220, g: 190, b: 90, a: 255 })
    } else {
        None
    }
}

/// The colour of the head of a node, or `None` for the colour of faint text.
pub open spec fn node_colour_of(kind: NodeKind) -> Option<Rgba> {
    match kind {
        NodeKind::Op { category } => category_colour(category@),
        NodeKind::VecCtor | NodeKind::Binary | NodeKind::Neg | NodeKind::Swizzle => Some(
            Rgba { r: 120, g: 140, b: 190, a: 255 },
        ),
        NodeKind::Constant => Some(Rgba { r: 150, g: 150, b: 160, a: 255 }),
        NodeKind::Input => Some(Rgba { r: 90, g: 190, b: 220, a: 255 }),
        NodeKind::Uniform => Some(Rgba { r: 230, g: 120, b: 160, a: 255 }),
        NodeKind::Texture => Some(Rgba { r: 190, g: 140, b: 255, a: 255 }),
        NodeKind::Out => Some(Rgba { r: 235, g: 110, b: 90, a: 255 }),
    }
}

/// The colour of an operation, by its category.
fn category_color(category: &str) -> (out: Option<Rgba>)
    ensures
        out == category_colour(category@),
{
    let c: Vec<char> = chars_of(category);
    if spells(c.as_slice(), "math") {
        Some(Rgba { r: 120, g: 140, b: 190, a: 255 })
    } else if spells(c.as_slice(), "noise") {
        Some(Rgba { r: 80, g: 180, b: 170, a: 255 })
    } else if spells(c.as_slice(), "color") {
        Some(Rgba { r: 220, g: 140, b: 70, a: 255 })
    } else if spells(c.as_slice(), "texture") {
        Some(Rgba { r: 190, g: 140, b: 255, a: 255 })
    } else if spells(c.as_slice(), "sdf") {
        Some(Rgba { r: 120, g: 190, b: 110, a: 255 })
    } else if spells(c.as_slice(), "engine") {
        Some(Rgba { r: 220, g: 190, b: 90, a: 255 })
    } else {
        None
    }
}

/// The colour of the head of a node, by what it does, or `None` for the colour of
/// faint text.
pub fn node_color(n: &GNode) -> (out: Option<Rgba>)
    ensures
        out == node_colour_of(n.kind),
{
    match &n.kind {
        NodeKind::Op { category } => category_color(category.as_str()),
        NodeKind::VecCtor => Some(Rgba { r: 120, g: 140, b: 190, a: 255 }),
        NodeKind::Binary => Some(Rgba { r: 120, g: 140, b: 190, a: 255 }),
        NodeKind::Neg => Some(Rgba { r: 120, g: 140, b: 190, a: 255 }),
        NodeKind::Swizzle => Some(Rgba { r: 120, g: 140, b: 190, a: 255 }),
        NodeKind::Constant => Some(Rgba { r: 150, g: 150, b: 160, a: 255 }),
        NodeKind::Input => Some(Rgba { r: 90, g: 190, b: 220, a: 255 }),
        NodeKind::Uniform => Some(Rgba { r: 230, g: 120, b: 160, a: 255 }),
        NodeKind::Texture => Some(Rgba { r: 190, g: 140, b: 255, a: 255 }),
        NodeKind::Out => Some(Rgba { r: 235, g: 110, b: 90, a: 255 }),
    }
}

/// Only what shows its value already shows no picture.
pub proof fn law_what_shows_its_value_needs_no_picture(kind: NodeKind)
    ensures
        is_previewable(kind) <==> !(kind is Uniform || kind is Constant),
{
}

/// A port has the colour of its type, and no two types the same; a texture has its own colour
/// whatever its type, and what has no type none.
pub proof fn law_a_port_has_the_colour_of_its_type(
    a: Option<ValueType>,
    b: Option<ValueType>,
)
    ensures
        port_colour_of(a, false) == port_colour_of(b, false) <==> a == b,
        port_colour_of(a, false) is None <==> a is None,
        port_colour_of(a, true) == port_colour_of(b, true),
        port_colour_of(a, true) is Some && port_colour_of(a, true) != port_colour_of(b, false),
{
}

/// What is built in has the colour of what it belongs to: operators that of the operations of
/// mathematics, and textures that of the operations on textures and of their ports. The end of
/// the graph, knobs, inputs and constants have colours of their own.
pub proof fn law_a_node_has_the_colour_of_its_kind(k: NodeKind)
    ensures
        k is VecCtor || k is Binary || k is Neg || k is Swizzle ==> node_colour_of(k)
            == category_colour("math"@),
        k is Texture ==> node_colour_of(k) == category_colour("texture"@) && node_colour_of(k)
            == port_colour_of(None, true),
        k matches NodeKind::Op { category } ==> node_colour_of(k) == category_colour(category@),
        !(k is Op) ==> node_colour_of(k) is Some,
        k is Out || k is Uniform || k is Input || k is Constant ==> node_colour_of(k)
            != category_colour("math"@) && node_colour_of(k) != category_colour("texture"@),
        node_colour_of(NodeKind::Out) != node_colour_of(NodeKind::Uniform),
        node_colour_of(NodeKind::Out) != node_colour_of(NodeKind::Input),
        node_colour_of(NodeKind::Input) != node_colour_of(NodeKind::Constant),
{
    reveal_strlit("math");
    reveal_strlit("noise");
    reveal_strlit("color");
    reveal_strlit("texture");
    assert("math"@[0] == 'm' && "noise"@[0] == 'n' && "color"@[0] == 'c' && "texture"@[0] == 't');
}

/// An operation of a category that is not known has the colour of faint text, and every known
/// category one of its own.
pub proof fn law_a_category_has_its_own_colour(a: Seq<char>, b: Seq<char>)
    ensures
        category_colour(a) is Some <==> a == "math"@ || a == "noise"@ || a == "color"@ || a
            == "texture"@ || a == "sdf"@ || a == "engine"@,
        category_colour(a) is Some && category_colour(a) == category_colour(b) ==> a == b,
{
}

// ---- names by the way from the end -----------------------------------------

/// The last node with this key.
pub open spec fn node_at(view: Seq<GNode>, key: u64) -> Option<int>
    decreases view.len(),
{
    if view.len() == 0 {
        None
    } else if view.last().key == key {
        Some(view.len() - 1)
    } else {
        node_at(view.drop_last(), key)
    }
}

/// What `node_at` gives is a node with that key.
proof fn lemma_node_at(view: Seq<GNode>, key: u64)
    ensures
        node_at(view, key) matches Some(i) ==> 0 <= i < view.len() && view[i].key == key,
        node_at(view, key) is None ==> forall|i: int|
            0 <= i < view.len() ==> (#[trigger] view[i]).key != key,
    decreases view.len(),
{
    if view.len() > 0 && view.last().key != key {
        lemma_node_at(view.drop_last(), key);
        let less = view.drop_last();
        assert(forall|i: int| 0 <= i < less.len() ==> less[i] == #[trigger] view[i]);
    }
}

/// The last node with this key, or the number of nodes.
fn find_node(view: &Vec<GNode>, key: u64) -> (out: usize)
    ensures
        match node_at(view@, key) {
            Some(i) => out == i && i < view@.len(),
            None => out == view@.len(),
        },
{
    let n: usize = view.len();
    let mut i: usize = n;
    assert(view@.take(n as int) =~= view@);
    while i > 0
        invariant
            i <= n,
            n == view@.len(),
            node_at(view@, key) == node_at(view@.take(i as int), key),
        decreases i,
    {
        proof {
            assert(view@.take(i as int).drop_last() =~= view@.take(i - 1));
        }
        if view[i - 1].key == key {
            return i - 1;
        }
        i -= 1;
    }
    n
}

/// The ends of the graph, each with the name that the ways start with.
pub open spec fn sinks(view: Seq<GNode>, n: int) -> Seq<(int, Seq<char>)>
    decreases n,
{
    if n <= 0 {
        seq![]
    } else if view[n - 1].key_kind == KeyKind::Out {
        sinks(view, n - 1).push((n - 1, "p"@))
    } else {
        sinks(view, n - 1)
    }
}

/// The node that a port leads on to, with the name of the way there, unless that
/// node has a name already.
pub open spec fn way_on(
    view: Seq<GNode>,
    done: Map<u64, Seq<char>>,
    path: Seq<char>,
    port: Port,
    pi: int,
) -> Option<(int, Seq<char>)> {
    match port.wired {
        Some(src) => match node_at(view, src) {
            Some(si) => if done.contains_key(src) {
                None
            } else {
                Some((si, path + "/"@ + decimal(pi as nat) + "."@ + view[si].op_label@))
            },
            None => None,
        },
        None => None,
    }
}

/// The nodes that the first `n` ports lead on to.
pub open spec fn ways_on(
    view: Seq<GNode>,
    done: Map<u64, Seq<char>>,
    path: Seq<char>,
    ports: Seq<Port>,
    n: int,
) -> Seq<(int, Seq<char>)>
    decreases n,
{
    if n <= 0 {
        seq![]
    } else {
        let before = ways_on(view, done, path, ports, n - 1);
        match way_on(view, done, path, ports[n - 1], n - 1) {
            Some(way) => before.push(way),
            None => before,
        }
    }
}

/// The names once the ways that are `open` have been followed, the last first,
/// and those that they lead to. Only so many steps are `left`.
pub open spec fn followed(
    view: Seq<GNode>,
    open: Seq<(int, Seq<char>)>,
    done: Map<u64, Seq<char>>,
    left: nat,
) -> Map<u64, Seq<char>>
    decreases left,
{
    if open.len() == 0 || left == 0 {
        done
    } else {
        let (i, path) = open.last();
        let n = view[i];
        if done.contains_key(n.key) {
            followed(view, open.drop_last(), done, (left - 1) as nat)
        } else {
            let more = done.insert(n.key, path);
            followed(
                view,
                open.drop_last() + ways_on(view, more, path, n.inputs@, n.inputs@.len() as int),
                more,
                (left - 1) as nat,
            )
        }
    }
}

/// How many steps are taken along the wires of a graph.
pub const MAX_STEPS: u32 = 4096;

/// The name of each node by the way to it from the end of the graph: through
/// which port, and to which operation. The first way to reach a node names it.
pub open spec fn sink_paths(view: Seq<GNode>) -> Map<u64, Seq<char>> {
    followed(view, sinks(view, view.len() as int), Map::empty(), MAX_STEPS as nat)
}

/// Texts under numbers, as plain data.
pub open spec fn map_texts(m: Map<u64, String>) -> Map<u64, Seq<char>> {
    m.map_values(|s: String| s@)
}

/// Ways as plain data.
pub open spec fn way_texts(v: Seq<(usize, String)>) -> Seq<(int, Seq<char>)> {
    v.map_values(|w: (usize, String)| (w.0 as int, w.1@))
}

/// Every way leads to a node.
pub open spec fn ways_fit(v: Seq<(usize, String)>, n: nat) -> bool {
    forall|i: int| 0 <= i < v.len() ==> (#[trigger] v[i]).0 < n
}

/// The ends of the graph.
fn find_sinks(view: &Vec<GNode>) -> (out: Vec<(usize, String)>)
    ensures
        way_texts(out@) == sinks(view@, view@.len() as int),
        ways_fit(out@, view@.len()),
{
    let mut out: Vec<(usize, String)> = Vec::new();
    let mut i: usize = 0;
    assert(way_texts(out@) =~= sinks(view@, 0));
    while i < view.len()
        invariant
            i <= view.len(),
            way_texts(out@) == sinks(view@, i as int),
            ways_fit(out@, view@.len()),
        decreases view.len() - i,
    {
        if view[i].key_kind == KeyKind::Out {
            let ghost was = out@;
            out.push((i, copy_of("p")));
            assert(way_texts(out@) =~= way_texts(was).push((i as int, "p"@)));
        }
        i += 1;
    }
    out
}

/// Puts the nodes that the ports of a node lead on to behind the ways that are
/// open.
fn open_ways(
    view: &Vec<GNode>,
    done: &HashMap<u64, String>,
    path: &str,
    at: usize,
    open: &mut Vec<(usize, String)>,
)
    requires
        at < view@.len(),
        ways_fit(old(open)@, view@.len()),
    ensures
        way_texts(final(open)@) == way_texts(old(open)@) + ways_on(
            view@,
            map_texts(done@),
            path@,
            view@[at as int].inputs@,
            view@[at as int].inputs@.len() as int,
        ),
        ways_fit(final(open)@, view@.len()),
{
    let ghost start = way_texts(open@);
    let ghost ports = view@[at as int].inputs@;
    let ghost names = map_texts(done@);
    let n: usize = view[at].inputs.len();
    let mut pi: usize = 0;
    assert(start + ways_on(view@, names, path@, ports, 0) =~= start);
    while pi < n
        invariant
            pi <= n,
            at < view@.len(),
            ports == view@[at as int].inputs@,
            n == ports.len(),
            names == map_texts(done@),
            way_texts(open@) == start + ways_on(view@, names, path@, ports, pi as int),
            ways_fit(open@, view@.len()),
        decreases n - pi,
    {
        let port: Port = view[at].inputs[pi];
        let ghost was = open@;
        match port.wired {
            Some(src) => {
                let si: usize = find_node(view, src);
                assert(names.contains_key(src) == done@.contains_key(src));
                if si < view.len() && !done.contains_key(&src) {
                    let a: String = joined(path, "/");
                    let b: String = joined(a.as_str(), decimal_text(pi as u64).as_str());
                    let c: String = joined(joined(b.as_str(), ".").as_str(), view[si].op_label.as_str());
                    open.push((si, c));
                    proof {
                        let way = (
                            si as int,
                            path@ + "/"@ + decimal(pi as nat) + "."@ + view@[si as int].op_label@,
                        );
                        assert(way_texts(open@) =~= way_texts(was).push(way));
                        assert(start + ways_on(view@, names, path@, ports, pi + 1) =~= (start
                            + ways_on(view@, names, path@, ports, pi as int)).push(way));
                    }
                }
            },
            None => {},
        }
        pi += 1;
    }
}

/// The name of each node by the way to it from the end of the graph. Renaming a
/// value leaves these names as they are.
pub fn sink_path_keys(view: &Vec<GNode>) -> (out: HashMap<u64, String>)
    ensures
        map_texts(out@) == sink_paths(view@),
{
    let mut done: HashMap<u64, String> = HashMap::new();
    let mut open: Vec<(usize, String)> = find_sinks(view);
    let mut left: u32 = MAX_STEPS;
    assert(map_texts(done@) =~= Map::empty());
    while open.len() > 0 && left > 0
        invariant
            left <= MAX_STEPS,
            ways_fit(open@, view@.len()),
            followed(view@, way_texts(open@), map_texts(done@), left as nat) == sink_paths(view@),
        decreases left,
    {
        let ghost before = open@;
        let ghost names = map_texts(done@);
        let way: Option<(usize, String)> = open.pop();
        match way {
            Some((i, path)) => {
                proof {
                    assert(before.last() == (i, path));
                    assert(way_texts(before).last() == (i as int, path@));
                    assert(way_texts(before).drop_last() =~= way_texts(open@));
                    assert(ways_fit(open@, view@.len())) by {
                        assert forall|j: int| 0 <= j < open@.len() implies (
                        #[trigger] open@[j]).0 < view@.len() by {
                            assert(before[j] == open@[j]);
                        }
                    }
                }
                let key: u64 = view[i].key;
                assert(names.contains_key(key) == done@.contains_key(key));
                if !done.contains_key(&key) {
                    let name: String = copy_of(path.as_str());
                    let _was: Option<String> = done.insert(key, name);
                    assert(map_texts(done@) =~= names.insert(key, path@));
                    open_ways(view, &done, path.as_str(), i, &mut open);
                }
            },
            None => {},
        }
        left -= 1;
    }
    done
}

/// Is `other` the same graph with other keys?
pub open spec fn rekeyed(view: Seq<GNode>, other: Seq<GNode>, f: spec_fn(u64) -> u64) -> bool {
    view.len() == other.len() && (forall|a: u64, b: u64| #[trigger] f(a) == #[trigger] f(b) ==> a == b)
        && forall|i: int|
        #![trigger view[i]]
        #![trigger other[i]]
        0 <= i < view.len() ==> other[i].key == f(view[i].key) && other[i].key_kind
            == view[i].key_kind && other[i].op_label@ == view[i].op_label@ && other[i].inputs@.len()
            == view[i].inputs@.len() && forall|j: int|
            #![trigger view[i].inputs@[j]]
            0 <= j < view[i].inputs@.len() ==> other[i].inputs@[j].wired == (
            match view[i].inputs@[j].wired {
                Some(src) => Some(f(src)),
                None => None,
            })
}

/// Are these the same names under other keys?
spec fn renamed(
    done: Map<u64, Seq<char>>,
    other: Map<u64, Seq<char>>,
    f: spec_fn(u64) -> u64,
) -> bool {
    forall|k: u64|
        #![trigger done.contains_key(k)]
        #![trigger other.contains_key(f(k))]
        done.contains_key(k) == other.contains_key(f(k)) && (done.contains_key(k) ==> done[k]
            == other[f(k)])
}

/// A key is found at the same place under its other name.
proof fn lemma_rekeyed_node(
    view: Seq<GNode>,
    other: Seq<GNode>,
    f: spec_fn(u64) -> u64,
    key: u64,
    n: int,
)
    requires
        rekeyed(view, other, f),
        0 <= n <= view.len(),
    ensures
        node_at(view.take(n), key) == node_at(other.take(n), f(key)),
    decreases n,
{
    if n > 0 {
        lemma_rekeyed_node(view, other, f, key, n - 1);
        assert(view.take(n).drop_last() =~= view.take(n - 1));
        assert(other.take(n).drop_last() =~= other.take(n - 1));
        assert(view.take(n).last() == view[n - 1]);
        assert(other.take(n).last() == other[n - 1]);
    }
}

/// The ends are the same under other keys.
proof fn lemma_rekeyed_sinks(view: Seq<GNode>, other: Seq<GNode>, f: spec_fn(u64) -> u64, n: int)
    requires
        rekeyed(view, other, f),
        n <= view.len(),
    ensures
        sinks(view, n) == sinks(other, n),
    decreases n,
{
    if n > 0 {
        lemma_rekeyed_sinks(view, other, f, n - 1);
        assert(view[n - 1].key_kind == other[n - 1].key_kind);
    }
}

/// A node leads on to the same nodes under other keys.
proof fn lemma_rekeyed_ways(
    view: Seq<GNode>,
    other: Seq<GNode>,
    f: spec_fn(u64) -> u64,
    done: Map<u64, Seq<char>>,
    done2: Map<u64, Seq<char>>,
    path: Seq<char>,
    i: int,
    n: int,
)
    requires
        rekeyed(view, other, f),
        renamed(done, done2, f),
        0 <= i < view.len(),
        n <= view[i].inputs@.len(),
    ensures
        ways_on(view, done, path, view[i].inputs@, n) == ways_on(
            other,
            done2,
            path,
            other[i].inputs@,
            n,
        ),
        forall|k: int|
            0 <= k < ways_on(view, done, path, view[i].inputs@, n).len() ==> 0 <= (
            #[trigger] ways_on(view, done, path, view[i].inputs@, n)[k]).0 < view.len(),
    decreases n,
{
    if n > 0 {
        lemma_rekeyed_ways(view, other, f, done, done2, path, i, n - 1);
        let port = view[i].inputs@[n - 1];
        match port.wired {
            Some(src) => {
                lemma_rekeyed_node(view, other, f, src, view.len() as int);
                assert(view.take(view.len() as int) =~= view);
                assert(other.take(view.len() as int) =~= other);
                lemma_node_at(view, src);
                assert(done.contains_key(src) == done2.contains_key(f(src)));
                match node_at(view, src) {
                    Some(si) => {
                        assert(view[si].op_label@ == other[si].op_label@);
                    },
                    None => {},
                }
            },
            None => {},
        }
    }
}

/// Following the ways gives the same names under other keys.
proof fn lemma_rekeyed_followed(
    view: Seq<GNode>,
    other: Seq<GNode>,
    f: spec_fn(u64) -> u64,
    open: Seq<(int, Seq<char>)>,
    done: Map<u64, Seq<char>>,
    done2: Map<u64, Seq<char>>,
    left: nat,
)
    requires
        rekeyed(view, other, f),
        renamed(done, done2, f),
        forall|k: int| 0 <= k < open.len() ==> 0 <= (#[trigger] open[k]).0 < view.len(),
    ensures
        renamed(followed(view, open, done, left), followed(other, open, done2, left), f),
    decreases left,
{
    if open.len() > 0 && left > 0 {
        let (i, path) = open.last();
        assert(open[open.len() - 1] == open.last());
        let rest = open.drop_last();
        let k = view[i].key;
        assert(other[i].key == f(k));
        assert(done.contains_key(k) == done2.contains_key(f(k)));
        if done.contains_key(k) {
            lemma_rekeyed_followed(view, other, f, rest, done, done2, (left - 1) as nat);
        } else {
            let more = done.insert(k, path);
            let more2 = done2.insert(f(k), path);
            assert(renamed(more, more2, f)) by {
                assert forall|q: u64|
                    #![trigger more.contains_key(q)]
                    #![trigger more2.contains_key(f(q))]
                    more.contains_key(q) == more2.contains_key(f(q)) && (more.contains_key(q)
                        ==> more[q] == more2[f(q)]) by {
                    assert(done.contains_key(q) == done2.contains_key(f(q)));
                    if f(q) == f(k) {
                        assert(q == k);
                    }
                }
            }
            let n = view[i].inputs@.len() as int;
            lemma_rekeyed_ways(view, other, f, more, more2, path, i, n);
            let ways = ways_on(view, more, path, view[i].inputs@, n);
            assert forall|j: int| 0 <= j < (rest + ways).len() implies 0 <= (#[trigger] (rest
                + ways)[j]).0 < view.len() by {
                if j < rest.len() {
                    assert(rest[j] == open[j]);
                } else {
                    assert((rest + ways)[j] == ways[j - rest.len()]);
                }
            }
            lemma_rekeyed_followed(view, other, f, rest + ways, more, more2, (left - 1) as nat);
        }
    }
}

/// The ends are nodes.
proof fn lemma_sinks_fit(view: Seq<GNode>, n: int)
    requires
        n <= view.len(),
    ensures
        forall|k: int|
            0 <= k < sinks(view, n).len() ==> 0 <= (#[trigger] sinks(view, n)[k]).0 < view.len(),
    decreases n,
{
    if n > 0 {
        lemma_sinks_fit(view, n - 1);
        let less = sinks(view, n - 1);
        let all = sinks(view, n);
        assert forall|k: int| 0 <= k < all.len() implies 0 <= (#[trigger] all[k]).0 < view.len() by {
            if k < less.len() {
                assert(all[k] == less[k]);
            }
        }
    }
}

/// Renaming values, which changes keys and nothing else of a graph, leaves the
/// names by the way from the end as they are.
pub proof fn law_renaming_keeps_the_ways(
    view: Seq<GNode>,
    other: Seq<GNode>,
    f: spec_fn(u64) -> u64,
    k: u64,
)
    requires
        rekeyed(view, other, f),
    ensures
        sink_paths(view).contains_key(k) == sink_paths(other).contains_key(f(k)),
        sink_paths(view).contains_key(k) ==> sink_paths(view)[k] == sink_paths(other)[f(k)],
{
    lemma_rekeyed_sinks(view, other, f, view.len() as int);
    lemma_sinks_fit(view, view.len() as int);
    let none = Map::<u64, Seq<char>>::empty();
    assert(renamed(none, none, f));
    lemma_rekeyed_followed(
        view,
        other,
        f,
        sinks(view, view.len() as int),
        none,
        none,
        MAX_STEPS as nat,
    );
    assert(sink_paths(view).contains_key(k) == sink_paths(other).contains_key(f(k)));
}

/// Of nodes with the same key the last is meant.
pub proof fn law_the_last_node_with_a_key_is_meant(view: Seq<GNode>, n: GNode, key: u64)
    ensures
        n.key == key ==> node_at(view.push(n), key) == Some(view.len() as int),
        n.key != key ==> node_at(view.push(n), key) == node_at(view, key),
        node_at(Seq::empty(), key) is None,
{
    assert(view.push(n).drop_last() =~= view);
}

/// The ends of a graph are its ends, in order, and every way starts alike.
pub proof fn law_ways_start_at_the_ends(view: Seq<GNode>, n: int)
    requires
        0 < n <= view.len(),
    ensures
        view[n - 1].key_kind is Out ==> sinks(view, n).len() == sinks(view, n - 1).len() + 1
            && sinks(view, n).last().0 == n - 1 && sinks(view, n).last().1 == "p"@,
        !(view[n - 1].key_kind is Out) ==> sinks(view, n) == sinks(view, n - 1),
        sinks(view, n - 1).is_prefix_of(sinks(view, n)),
{
}

/// The first way to reach a node names it: what has a name keeps it, however many ways are
/// still to be followed.
pub proof fn law_the_first_way_names_a_node(
    view: Seq<GNode>,
    open: Seq<(int, Seq<char>)>,
    done: Map<u64, Seq<char>>,
    left: nat,
    k: u64,
)
    requires
        done.contains_key(k),
    ensures
        followed(view, open, done, left).contains_key(k),
        followed(view, open, done, left)[k] == done[k],
    decreases left,
{
    if open.len() > 0 && left > 0 {
        let (i, path) = open.last();
        let n = view[i];
        if done.contains_key(n.key) {
            law_the_first_way_names_a_node(view, open.drop_last(), done, (left - 1) as nat, k);
        } else {
            let more = done.insert(n.key, path);
            law_the_first_way_names_a_node(
                view,
                open.drop_last() + ways_on(view, more, path, n.inputs@, n.inputs@.len() as int),
                more,
                (left - 1) as nat,
                k,
            );
        }
    }
}

/// The way that is followed next names its node, where that has no name yet.
pub proof fn law_a_way_names_the_node_it_leads_to(
    view: Seq<GNode>,
    open: Seq<(int, Seq<char>)>,
    done: Map<u64, Seq<char>>,
    left: nat,
)
    requires
        open.len() > 0,
        left > 0,
        !done.contains_key(view[open.last().0].key),
    ensures
        followed(view, open, done, left).contains_key(view[open.last().0].key),
        followed(view, open, done, left)[view[open.last().0].key] == open.last().1,
{
    let (i, path) = open.last();
    let n = view[i];
    let more = done.insert(n.key, path);
    law_the_first_way_names_a_node(
        view,
        open.drop_last() + ways_on(view, more, path, n.inputs@, n.inputs@.len() as int),
        more,
        (left - 1) as nat,
        n.key,
    );
}

/// A wire leads on to the node that it comes from, by the number of its port and the operation
/// of that node, unless that node has a name already. Without a wire there is no way.
pub proof fn law_a_wire_leads_to_its_source(
    view: Seq<GNode>,
    done: Map<u64, Seq<char>>,
    path: Seq<char>,
    port: Port,
    pi: int,
)
    ensures
        way_on(view, done, path, port, pi) matches Some(w) ==> port.wired is Some && 0 <= w.0
            < view.len() && port.wired == Some(view[w.0].key) && !done.contains_key(view[w.0].key)
            && w.1 == path + "/"@ + decimal(pi as nat) + "."@ + view[w.0].op_label@,
        way_on(view, done, path, port, pi) is None ==> port.wired is None || done.contains_key(
            port.wired->Some_0,
        ) || forall|i: int|
            0 <= i < view.len() ==> (#[trigger] view[i]).key != port.wired->Some_0,
{
    if port.wired is Some {
        lemma_node_at(view, port.wired->Some_0);
    }
}

// ---- where nodes stand -----------------------------------------------------

/// The text under a number, if there is one.
pub open spec fn under(m: Map<u64, Seq<char>>, key: u64) -> Option<Seq<char>> {
    if m.contains_key(key) {
        Some(m[key])
    } else {
        None
    }
}

/// Where a node stands: where the file says, or else where it stood before, or
/// else where it was laid out.
pub open spec fn spot_of(
    n: GNode,
    named: Option<Seq<char>>,
    pathed: Option<Seq<char>>,
    cache: Map<Seq<char>, Spot>,
) -> Spot {
    if n.placed {
        n.pos
    } else if named matches Some(k) && cache.contains_key(k) {
        cache[named->Some_0]
    } else if pathed matches Some(k) && cache.contains_key(k) {
        cache[pathed->Some_0]
    } else {
        n.pos
    }
}

/// What is remembered once a node stands at `spot`.
pub open spec fn noted(
    cache: Map<Seq<char>, Spot>,
    named: Option<Seq<char>>,
    pathed: Option<Seq<char>>,
    spot: Spot,
) -> Map<Seq<char>, Spot> {
    let a = match named {
        Some(k) => cache.insert(k, spot),
        None => cache,
    };
    match pathed {
        Some(k) => a.insert(k, spot),
        None => a,
    }
}

/// What is remembered once the first `n` nodes stand.
pub open spec fn noted_upto(
    view: Seq<GNode>,
    named: Map<u64, Seq<char>>,
    pathed: Map<u64, Seq<char>>,
    cache: Map<Seq<char>, Spot>,
    n: int,
) -> Map<Seq<char>, Spot>
    decreases n,
{
    if n <= 0 {
        cache
    } else {
        let before = noted_upto(view, named, pathed, cache, n - 1);
        let node = view[n - 1];
        let a = under(named, node.key);
        let b = under(pathed, node.key);
        noted(before, a, b, spot_of(node, a, b, before))
    }
}

/// Where the node at `i` stands.
pub open spec fn frozen_spot(
    view: Seq<GNode>,
    named: Map<u64, Seq<char>>,
    pathed: Map<u64, Seq<char>>,
    cache: Map<Seq<char>, Spot>,
    i: int,
) -> Spot {
    spot_of(
        view[i],
        under(named, view[i].key),
        under(pathed, view[i].key),
        noted_upto(view, named, pathed, cache, i),
    )
}

/// The spot that is remembered under the name of a node, where it has one.
fn remembered(names: &HashMap<u64, String>, key: u64, cache: &Table<Spot>) -> (out: Option<Spot>)
    requires
        cache.wf(),
    ensures
        out == match under(map_texts(names@), key) {
            Some(k) => if cache@.contains_key(k) {
                Some(cache@[k])
            } else {
                None
            },
            None => None,
        },
{
    match names.get(&key) {
        Some(k) => match cache.get(k.as_str()) {
            Some(spot) => Some(*spot),
            None => None,
        },
        None => None,
    }
}

/// Remembers a spot under the name of a node, where it has one.
fn remember(names: &HashMap<u64, String>, key: u64, cache: &mut Table<Spot>, spot: Spot)
    requires
        old(cache).wf(),
    ensures
        final(cache).wf(),
        final(cache)@ == match under(map_texts(names@), key) {
            Some(k) => old(cache)@.insert(k, spot),
            None => old(cache)@,
        },
{
    match names.get(&key) {
        Some(k) => {
            cache.put(k.as_str(), spot);
        },
        None => {},
    }
}

/// Puts every node where it stands, and remembers that. `named` are the names
/// that survive rewiring, `pathed` those that survive renaming.
pub fn freeze_positions(
    view: &mut Vec<GNode>,
    named: &HashMap<u64, String>,
    pathed: &HashMap<u64, String>,
    cache: &mut Table<Spot>,
)
    requires
        old(cache).wf(),
    ensures
        final(cache).wf(),
        final(cache)@ == noted_upto(
            old(view)@,
            map_texts(named@),
            map_texts(pathed@),
            old(cache)@,
            old(view)@.len() as int,
        ),
        final(view)@.len() == old(view)@.len(),
        forall|i: int|
            0 <= i < old(view)@.len() ==> #[trigger] final(view)@[i] == (GNode {
                pos: frozen_spot(
                    old(view)@,
                    map_texts(named@),
                    map_texts(pathed@),
                    old(cache)@,
                    i,
                ),
                ..old(view)@[i]
            }),
{
    let ghost all = view@;
    let ghost names = map_texts(named@);
    let ghost paths = map_texts(pathed@);
    let ghost start = cache@;
    let n: usize = view.len();
    let mut i: usize = 0;
    while i < n
        invariant
            i <= n,
            n == view@.len(),
            n == all.len(),
            names == map_texts(named@),
            paths == map_texts(pathed@),
            cache.wf(),
            cache@ == noted_upto(all, names, paths, start, i as int),
            forall|j: int|
                0 <= j < i ==> #[trigger] view@[j] == (GNode {
                    pos: frozen_spot(all, names, paths, start, j),
                    ..all[j]
                }),
            forall|j: int| i <= j < n ==> #[trigger] view@[j] == all[j],
        decreases n - i,
    {
        let key: u64 = view[i].key;
        let mut spot: Spot = view[i].pos;
        if !view[i].placed {
            match remembered(named, key, cache) {
                Some(s) => {
                    spot = s;
                },
                None => match remembered(pathed, key, cache) {
                    Some(s) => {
                        spot = s;
                    },
                    None => {},
                },
            }
        }
        assert(spot == frozen_spot(all, names, paths, start, i as int));
        view[i].pos = spot;
        remember(named, key, cache, spot);
        remember(pathed, key, cache, spot);
        i += 1;
    }
}

/// Does no other node up to `n` go by the name `k`?
pub open spec fn alone_with(
    view: Seq<GNode>,
    named: Map<u64, Seq<char>>,
    pathed: Map<u64, Seq<char>>,
    i: int,
    k: Seq<char>,
) -> bool {
    forall|j: int|
        0 <= j < view.len() && j != i ==> under(named, (#[trigger] view[j]).key) != Some(k)
            && under(pathed, view[j].key) != Some(k)
}

/// Nodes that do not go by a name leave what is under it.
proof fn lemma_noted_apart(
    view: Seq<GNode>,
    named: Map<u64, Seq<char>>,
    pathed: Map<u64, Seq<char>>,
    cache: Map<Seq<char>, Spot>,
    from: int,
    n: int,
    k: Seq<char>,
)
    requires
        0 <= from <= n <= view.len(),
        forall|j: int|
            from <= j < n ==> under(named, (#[trigger] view[j]).key) != Some(k) && under(
                pathed,
                view[j].key,
            ) != Some(k),
    ensures
        noted_upto(view, named, pathed, cache, n).contains_key(k) == noted_upto(
            view,
            named,
            pathed,
            cache,
            from,
        ).contains_key(k),
        noted_upto(view, named, pathed, cache, from).contains_key(k) ==> noted_upto(
            view,
            named,
            pathed,
            cache,
            n,
        )[k] == noted_upto(view, named, pathed, cache, from)[k],
    decreases n - from,
{
    if from < n {
        lemma_noted_apart(view, named, pathed, cache, from, n - 1, k);
        assert(view[n - 1].key == view[n - 1].key);
    }
}

/// Where a node stands is remembered under its name.
pub proof fn law_a_spot_is_remembered(
    view: Seq<GNode>,
    named: Map<u64, Seq<char>>,
    pathed: Map<u64, Seq<char>>,
    cache: Map<Seq<char>, Spot>,
    i: int,
    k: Seq<char>,
)
    requires
        0 <= i < view.len(),
        under(named, view[i].key) == Some(k) || under(pathed, view[i].key) == Some(k),
        alone_with(view, named, pathed, i, k),
    ensures
        noted_upto(view, named, pathed, cache, view.len() as int).contains_key(k),
        noted_upto(view, named, pathed, cache, view.len() as int)[k] == frozen_spot(
            view,
            named,
            pathed,
            cache,
            i,
        ),
{
    lemma_noted_apart(view, named, pathed, cache, i + 1, view.len() as int, k);
}

/// A node that the file does not place stands where it stood before, wherever a
/// new layout would put it: whatever else was rewired, as long as it keeps its
/// name.
pub proof fn law_a_node_never_moves_on_its_own(
    before: Seq<GNode>,
    after: Seq<GNode>,
    named: Map<u64, Seq<char>>,
    named2: Map<u64, Seq<char>>,
    pathed: Map<u64, Seq<char>>,
    pathed2: Map<u64, Seq<char>>,
    cache: Map<Seq<char>, Spot>,
    i: int,
    j: int,
    k: Seq<char>,
)
    requires
        0 <= i < before.len(),
        0 <= j < after.len(),
        under(named, before[i].key) == Some(k),
        under(named2, after[j].key) == Some(k),
        alone_with(before, named, pathed, i, k),
        alone_with(after, named2, pathed2, j, k),
        !after[j].placed,
    ensures
        frozen_spot(
            after,
            named2,
            pathed2,
            noted_upto(before, named, pathed, cache, before.len() as int),
            j,
        ) == frozen_spot(before, named, pathed, cache, i),
{
    law_a_spot_is_remembered(before, named, pathed, cache, i, k);
    let c = noted_upto(before, named, pathed, cache, before.len() as int);
    lemma_noted_apart(after, named2, pathed2, c, 0, j, k);
}

/// A node whose name is new stands where it stood before, as long as the way to
/// it from the end stays.
pub proof fn law_a_renamed_node_never_moves(
    before: Seq<GNode>,
    after: Seq<GNode>,
    named: Map<u64, Seq<char>>,
    named2: Map<u64, Seq<char>>,
    pathed: Map<u64, Seq<char>>,
    pathed2: Map<u64, Seq<char>>,
    cache: Map<Seq<char>, Spot>,
    i: int,
    j: int,
    k: Seq<char>,
)
    requires
        0 <= i < before.len(),
        0 <= j < after.len(),
        under(pathed, before[i].key) == Some(k),
        under(pathed2, after[j].key) == Some(k),
        alone_with(before, named, pathed, i, k),
        alone_with(after, named2, pathed2, j, k),
        !after[j].placed,
        under(named2, after[j].key) matches Some(name) ==> !noted_upto(
            after,
            named2,
            pathed2,
            noted_upto(before, named, pathed, cache, before.len() as int),
            j,
        ).contains_key(name),
    ensures
        frozen_spot(
            after,
            named2,
            pathed2,
            noted_upto(before, named, pathed, cache, before.len() as int),
            j,
        ) == frozen_spot(before, named, pathed, cache, i),
{
    law_a_spot_is_remembered(before, named, pathed, cache, i, k);
    let c = noted_upto(before, named, pathed, cache, before.len() as int);
    lemma_noted_apart(after, named2, pathed2, c, 0, j, k);
}

/// Where the file says a node stands, there it stands.
pub proof fn law_the_file_wins(
    view: Seq<GNode>,
    named: Map<u64, Seq<char>>,
    pathed: Map<u64, Seq<char>>,
    cache: Map<Seq<char>, Spot>,
    i: int,
)
    requires
        0 <= i < view.len(),
        view[i].placed,
    ensures
        frozen_spot(view, named, pathed, cache, i) == view[i].pos,
{
}

/// The name that survives rewiring wins over the one that survives renaming, and what was laid
/// out counts only where nothing is remembered under either.
pub proof fn law_the_name_wins_over_the_way(
    n: GNode,
    named: Option<Seq<char>>,
    pathed: Option<Seq<char>>,
    cache: Map<Seq<char>, Spot>,
)
    requires
        !n.placed,
    ensures
        ({
            let by_name = named is Some && cache.contains_key(named->Some_0);
            let by_way = pathed is Some && cache.contains_key(pathed->Some_0);
            &&& by_name ==> spot_of(n, named, pathed, cache) == cache[named->Some_0]
            &&& !by_name && by_way ==> spot_of(n, named, pathed, cache) == cache[pathed->Some_0]
            &&& !by_name && !by_way ==> spot_of(n, named, pathed, cache) == n.pos
        }),
{
}

/// A spot is remembered under both names of a node, and nothing else that is remembered
/// changes.
pub proof fn law_a_spot_is_noted_under_both_names(
    cache: Map<Seq<char>, Spot>,
    named: Option<Seq<char>>,
    pathed: Option<Seq<char>>,
    spot: Spot,
    other: Seq<char>,
)
    ensures
        named matches Some(k) ==> noted(cache, named, pathed, spot).contains_key(k) && noted(
            cache,
            named,
            pathed,
            spot,
        )[k] == spot,
        pathed matches Some(k) ==> noted(cache, named, pathed, spot).contains_key(k) && noted(
            cache,
            named,
            pathed,
            spot,
        )[k] == spot,
        named != Some(other) && pathed != Some(other) ==> noted(
            cache,
            named,
            pathed,
            spot,
        ).contains_key(other) == cache.contains_key(other) && (cache.contains_key(other) ==> noted(
            cache,
            named,
            pathed,
            spot,
        )[other] == cache[other]),
{
}

/// Room is left under a node exactly where it could show a preview, whether or not it does now.
pub proof fn law_room_is_left_for_a_preview(n: &GNode, on: bool, hidden: bool, pad: u32, shown: bool)
    requires
        call_ensures(graph_pad, (n,), pad),
        call_ensures(shows_preview, (n, on, hidden), shown),
    ensures
        shown ==> pad == PREVIEW_ROOM && on && !hidden,
        pad == 0 ==> !shown,
        pad != 0 && on && !hidden ==> shown,
        PREVIEW_ROOM > 0,
{
}

} // verus!
