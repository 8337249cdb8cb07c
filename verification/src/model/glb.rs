//! glTF binary (GLB) scene and primitive structure: which files the loader
//! accepts, in which order it visits the scene's nodes, and how each
//! primitive's vertex indices enter the merged triangle list.
use vstd::prelude::*;
use crate::text::{owned, push_str};
use gltf::buffer::Source;
use gltf::json::mesh::Semantic;
use gltf::json::validation::Checked;
use gltf::Gltf;

verus! {

// ---------------------------------------------------------------------------
// Scene walk

/// A node graph as child lists: `graph[n]` lists the children of node `n`.
pub open spec fn graph(children: &Vec<Vec<usize>>) -> Seq<Seq<usize>> {
    children@.map_values(|c: Vec<usize>| c@)
}

/// Every child and root names a node of the graph.
pub open spec fn well_indexed(g: Seq<Seq<usize>>, roots: Seq<usize>) -> bool {
    &&& forall|i: int| 0 <= i < roots.len() ==> #[trigger] roots[i] < g.len()
    &&& forall|n: int, j: int| 0 <= n < g.len() && 0 <= j < g[n].len() ==> #[trigger] g[n][j] < g.len()
}

/// Depth-first pre-order expansion of `nodes`, each node followed by the
/// expansion of its children, at most `fuel` levels deep.
pub open spec fn expand(g: Seq<Seq<usize>>, nodes: Seq<usize>, fuel: nat) -> Seq<usize>
    decreases fuel, nodes.len(),
{
    if nodes.len() == 0 || fuel == 0 {
        Seq::empty()
    } else {
        seq![nodes[0]] + expand(g, g[nodes[0] as int], (fuel - 1) as nat) + expand(
            g,
            nodes.drop_first(),
            fuel,
        )
    }
}

/// The depth-first pre-order expansion of a scene from its root nodes, one
/// level deeper than the graph has nodes: it repeats a node exactly when the
/// scene reaches some node twice (a cycle, or a node with two parents).
pub open spec fn scene_expansion(g: Seq<Seq<usize>>, roots: Seq<usize>) -> Seq<usize> {
    expand(g, roots, (g.len() + 1) as nat)
}

/// One visited node: the node, and the position in the walk of the node it
/// was reached from (`None` for a root).
#[derive(Clone, Copy, Debug, PartialEq, Eq)]
pub struct SceneEntry {
    /// Node index.
    pub node: usize,
    /// Walk position of the parent entry.
    pub parent: Option<usize>,
}

/// The nodes of a walk, in order.
pub open spec fn walk_nodes(entries: Seq<SceneEntry>) -> Seq<usize> {
    entries.map_values(|e: SceneEntry| e.node)
}

/// Each entry's parent, if any, comes earlier and lists the entry's node as
/// a child; an entry without a parent is a root.
pub open spec fn parents_consistent(g: Seq<Seq<usize>>, roots: Seq<usize>, entries: Seq<SceneEntry>) -> bool {
    forall|k: int|
        0 <= k < entries.len() ==> match #[trigger] entries[k].parent {
            None => roots.contains(entries[k].node),
            Some(p) => p < k && g[entries[p as int].node as int].contains(entries[k].node),
        }
}

/// Nodes still to visit, each with its remaining depth; the last is visited next.
spec fn pending_expansion(g: Seq<Seq<usize>>, pending: Seq<(usize, nat)>) -> Seq<usize>
    decreases pending.len(),
{
    if pending.len() == 0 {
        Seq::empty()
    } else {
        expand(g, seq![pending.last().0], pending.last().1) + pending_expansion(
            g,
            pending.drop_last(),
        )
    }
}

/// `nodes`, last first, each with depth `fuel`: the order in which they are pushed.
spec fn reversed_pending(nodes: Seq<usize>, fuel: nat) -> Seq<(usize, nat)> {
    Seq::new(nodes.len(), |k: int| (nodes[nodes.len() - 1 - k], fuel))
}

proof fn lemma_expand_first(g: Seq<Seq<usize>>, nodes: Seq<usize>, fuel: nat)
    requires
        nodes.len() > 0,
    ensures
        expand(g, nodes, fuel) == expand(g, seq![nodes[0]], fuel) + expand(
            g,
            nodes.drop_first(),
            fuel,
        ),
{
    if fuel > 0 {
        let one = seq![nodes[0]];
        assert(one.drop_first() =~= Seq::<usize>::empty());
        assert(expand(g, one.drop_first(), fuel) == Seq::<usize>::empty());
        assert(expand(g, one, fuel) =~= seq![nodes[0]] + expand(g, g[nodes[0] as int], (fuel - 1) as nat));
        assert(expand(g, nodes, fuel) =~= expand(g, one, fuel) + expand(g, nodes.drop_first(), fuel));
    } else {
        assert(expand(g, nodes, fuel) =~= Seq::<usize>::empty());
    }
}

proof fn lemma_push_reversed(g: Seq<Seq<usize>>, base: Seq<(usize, nat)>, nodes: Seq<usize>, fuel: nat)
    ensures
        pending_expansion(g, base + reversed_pending(nodes, fuel)) == expand(g, nodes, fuel)
            + pending_expansion(g, base),
    decreases nodes.len(),
{
    let s = base + reversed_pending(nodes, fuel);
    if nodes.len() == 0 {
        assert(s =~= base);
        assert(expand(g, nodes, fuel) =~= Seq::<usize>::empty());
        assert(pending_expansion(g, s) =~= expand(g, nodes, fuel) + pending_expansion(g, base));
    } else {
        let rest = nodes.drop_first();
        lemma_push_reversed(g, base, rest, fuel);
        assert(s.last() == (nodes[0], fuel));
        assert(s.drop_last() =~= base + reversed_pending(rest, fuel));
        lemma_expand_first(g, nodes, fuel);
        assert(pending_expansion(g, s) =~= expand(g, nodes, fuel) + pending_expansion(g, base));
    }
}

/// A repetition-free sequence of numbers below `n` has at most `n` elements.
proof fn lemma_distinct_below(s: Seq<usize>, n: nat)
    requires
        s.no_duplicates(),
        forall|i: int| 0 <= i < s.len() ==> s[i] < n,
    ensures
        s.len() <= n,
    decreases n,
{
    if n == 0 {
        if s.len() > 0 {
            assert(s[0] < 0);
        }
    } else if exists|i: int| 0 <= i < s.len() && s[i] == n - 1 {
        let i = choose|i: int| 0 <= i < s.len() && s[i] == n - 1;
        let t = s.remove(i);
        assert(t.len() == s.len() - 1);
        assert forall|k: int| 0 <= k < t.len() implies t[k] == (if k < i { s[k] } else { s[k + 1] }) by {}
        assert forall|k: int| 0 <= k < t.len() implies t[k] < n - 1 by {
            if k < i {
                assert(s[k] != s[i]);
            } else {
                assert(s[k + 1] != s[i]);
            }
        }
        assert forall|a: int, b: int| 0 <= a < t.len() && 0 <= b < t.len() && a != b implies t[a] != t[b] by {
            let a2 = if a < i { a } else { a + 1 };
            let b2 = if b < i { b } else { b + 1 };
            assert(s[a2] != s[b2]);
        }
        lemma_distinct_below(t, (n - 1) as nat);
    } else {
        assert forall|k: int| 0 <= k < s.len() implies s[k] < n - 1 by {
            assert(s[k] != n - 1);
        }
        lemma_distinct_below(s, (n - 1) as nat);
    }
}

/// Walk a glTF scene depth first, in pre-order, from its root nodes, visiting
/// children in order. Each node may be reached only once: a cycle or a node
/// with two parents is refused. On success every entry records the walk
/// position of its parent, so node transforms can be composed in walk order.
pub fn walk_scene(children: &Vec<Vec<usize>>, roots: &[usize]) -> (r: Result<Vec<SceneEntry>, GlbError>)
    requires
        well_indexed(graph(children), roots@),
    ensures
        match r {
            Ok(entries) => {
                &&& scene_expansion(graph(children), roots@).no_duplicates()
                &&& walk_nodes(entries@) == scene_expansion(graph(children), roots@)
                &&& parents_consistent(graph(children), roots@, entries@)
            },
            Err(e) => {
                &&& e == GlbError::RepeatedNode
                &&& !scene_expansion(graph(children), roots@).no_duplicates()
            },
        },
{
    let ghost g = graph(children);
    let n_nodes = children.len();
    let ghost depth: nat = (n_nodes + 1) as nat;
    let ghost whole = scene_expansion(g, roots@);
    let mut visited: Vec<bool> = Vec::new();
    while visited.len() < n_nodes
        invariant
            visited@.len() <= n_nodes,
            forall|v: int| 0 <= v < visited@.len() ==> !visited@[v],
        decreases n_nodes - visited.len(),
    {
        visited.push(false);
    }
    let mut stack: Vec<(usize, Option<usize>)> = Vec::new();
    let ghost mut pending: Seq<(usize, nat)> = Seq::empty();
    let mut j = roots.len();
    while j > 0
        invariant
            j <= roots@.len(),
            well_indexed(g, roots@),
            stack@.len() == pending.len(),
            pending == reversed_pending(roots@.subrange(j as int, roots@.len() as int), depth),
            forall|k: int| 0 <= k < stack@.len() ==> (#[trigger] stack@[k]).0 == pending[k].0,
            forall|k: int| 0 <= k < stack@.len() ==> (#[trigger] stack@[k]).1 is None,
        decreases j,
    {
        j = j - 1;
        stack.push((roots[j], None));
        proof {
            pending = pending.push((roots@[j as int], depth));
            assert(pending =~= reversed_pending(roots@.subrange(j as int, roots@.len() as int), depth));
        }
    }
    proof {
        assert(roots@.subrange(0, roots@.len() as int) =~= roots@);
        lemma_push_reversed(g, Seq::empty(), roots@, depth);
        assert(Seq::<(usize, nat)>::empty() + pending =~= pending);
    }
    let mut entries: Vec<SceneEntry> = Vec::new();
    loop
        invariant
            n_nodes == children@.len(),
            g == graph(children),
            depth == n_nodes + 1,
            whole == scene_expansion(g, roots@),
            well_indexed(g, roots@),
            visited@.len() == n_nodes,
            forall|v: int| 0 <= v < n_nodes ==> visited@[v] == walk_nodes(entries@).contains(v as usize),
            walk_nodes(entries@).no_duplicates(),
            forall|i: int| 0 <= i < entries@.len() ==> (#[trigger] entries@[i]).node < n_nodes,
            stack@.len() == pending.len(),
            forall|k: int|
                0 <= k < stack@.len() ==> {
                    &&& (#[trigger] stack@[k]).0 == pending[k].0
                    &&& pending[k].0 < n_nodes
                    &&& pending[k].1 + entries@.len() >= depth
                    &&& match stack@[k].1 {
                        None => roots@.contains(stack@[k].0),
                        Some(p) => p < entries@.len() && g[entries@[p as int].node as int].contains(stack@[k].0),
                    }
                },
            walk_nodes(entries@) + pending_expansion(g, pending) == whole,
            parents_consistent(g, roots@, entries@),
        decreases n_nodes - entries.len(),
    {
        proof {
            assert forall|i: int| 0 <= i < walk_nodes(entries@).len() implies walk_nodes(entries@)[i] < n_nodes by {
                assert(entries@[i].node < n_nodes);
            }
            lemma_distinct_below(walk_nodes(entries@), n_nodes as nat);
        }
        let top = stack.pop();
        match top {
            None => {
                proof {
                    assert(pending.len() == 0);
                    assert(walk_nodes(entries@) =~= whole);
                }
                return Ok(entries);
            },
            Some((node, parent)) => {
                let ghost order = walk_nodes(entries@);
                let ghost f = pending.last().1;
                let ghost rest = pending.drop_last();
                proof {
                    assert(stack@.len() == rest.len());
                    assert(node == pending.last().0);
                    assert(f >= 1);
                    let one = seq![node];
                    assert(one.drop_first() =~= Seq::<usize>::empty());
                    assert(one[0] == node);
                    assert(expand(g, one.drop_first(), f) == Seq::<usize>::empty());
                    assert(expand(g, one, f) =~= seq![node] + expand(g, g[node as int], (f - 1) as nat));
                    assert(whole =~= order + (seq![node] + expand(g, g[node as int], (f - 1) as nat)
                        + pending_expansion(g, rest)));
                }
                if visited[node] {
                    proof {
                        assert(order.contains(node));
                        let i = choose|i: int| 0 <= i < order.len() && order[i] == node;
                        assert(whole[i] == node);
                        assert(whole[order.len() as int] == node);
                    }
                    return Err(GlbError::RepeatedNode);
                }
                let pos = entries.len();
                visited.set(node, true);
                entries.push(SceneEntry { node, parent });
                let kids = &children[node];
                proof {
                    assert(kids@ == g[node as int]);
                }
                let ghost before_push = stack@;
                push_children(&mut stack, kids, pos);
                proof {
                    pending = rest + reversed_pending(kids@, (f - 1) as nat);
                    lemma_push_reversed(g, rest, kids@, (f - 1) as nat);
                    assert(walk_nodes(entries@) =~= order.push(node));
                    assert(walk_nodes(entries@) + pending_expansion(g, pending) =~= whole);
                    assert forall|a: int, b: int|
                        0 <= a < walk_nodes(entries@).len() && 0 <= b < walk_nodes(entries@).len() && a != b
                        implies walk_nodes(entries@)[a] != walk_nodes(entries@)[b] by {
                        if a == order.len() {
                            assert(!order.contains(node));
                            assert(order[b] != node);
                        } else if b == order.len() {
                            assert(!order.contains(node));
                            assert(order[a] != node);
                        }
                    }
                    assert forall|v: int| 0 <= v < n_nodes implies visited@[v] == walk_nodes(entries@).contains(v as usize) by {
                        if v == node {
                            assert(walk_nodes(entries@)[order.len() as int] == node);
                        } else {
                            if walk_nodes(entries@).contains(v as usize) {
                                let i = choose|i: int| 0 <= i < walk_nodes(entries@).len() && walk_nodes(entries@)[i] == v as usize;
                                assert(order[i] == v);
                            }
                            if order.contains(v as usize) {
                                let i = choose|i: int| 0 <= i < order.len() && order[i] == v as usize;
                                assert(walk_nodes(entries@)[i] == v);
                            }
                        }
                    }
                    assert forall|k: int|
                        0 <= k < stack@.len() implies {
                            &&& (#[trigger] stack@[k]).0 == pending[k].0
                            &&& pending[k].0 < n_nodes
                            &&& pending[k].1 + entries@.len() >= depth
                            &&& match stack@[k].1 {
                                None => roots@.contains(stack@[k].0),
                                Some(p) => p < entries@.len() && g[entries@[p as int].node as int].contains(stack@[k].0),
                            }
                        } by {
                        if k < rest.len() {
                            assert(stack@[k] == before_push[k]);
                        } else {
                            let m = kids@.len() - 1 - (k - rest.len());
                            assert(stack@[k] == (kids@[m], Some(pos)));
                            assert(g[node as int][m] < g.len());
                            assert(g[entries@[pos as int].node as int].contains(kids@[m]));
                        }
                    }
                    assert forall|i: int| 0 <= i < walk_nodes(entries@).len() implies walk_nodes(entries@)[i] < n_nodes by {
                        assert(entries@[i].node < n_nodes);
                    }
                    lemma_distinct_below(walk_nodes(entries@), n_nodes as nat);
                }
            },
        }
    }
}

/// The children of a node as they are pushed on the walk stack: last child
/// first, so that the first child is visited next.
pub open spec fn pushed_children(kids: Seq<usize>, pos: usize) -> Seq<(usize, Option<usize>)> {
    Seq::new(kids.len(), |k: int| (kids[kids.len() - 1 - k], Some(pos)))
}

fn push_children(stack: &mut Vec<(usize, Option<usize>)>, kids: &Vec<usize>, pos: usize)
    ensures
        final(stack)@ == old(stack)@ + pushed_children(kids@, pos),
{
    let ghost start = old(stack)@;
    let mut j = kids.len();
    while j > 0
        invariant
            j <= kids@.len(),
            stack@ == start + pushed_children(kids@.subrange(j as int, kids@.len() as int), pos),
        decreases j,
    {
        j = j - 1;
        stack.push((kids[j], Some(pos)));
        assert(stack@ =~= start + pushed_children(kids@.subrange(j as int, kids@.len() as int), pos));
    }
    assert(kids@.subrange(0, kids@.len() as int) =~= kids@);
}

// ---------------------------------------------------------------------------
// Buffers

/// A buffer declared by a GLB file; a buffer's index is its position in the
/// file's list of buffers.
#[derive(Clone, Copy, Debug, PartialEq, Eq)]
pub struct GlbBuffer {
    /// The buffer is the file's own binary chunk (not an external URI).
    pub embedded: bool,
    /// The buffer's declared length in bytes.
    pub length: usize,
}

/// A buffer the loader can read: the embedded binary chunk, buffer 0
/// (`index`), and no longer than the chunk.
pub open spec fn buffer_readable(b: GlbBuffer, index: int, blob_len: nat) -> bool {
    b.embedded && index == 0 && b.length <= blob_len
}

/// The loader's verdict on a file's buffers, given the length of its binary
/// chunk (`None` when it has none).
pub open spec fn buffers_verdict(blob_len: Option<usize>, buffers: Seq<GlbBuffer>) -> Result<(), GlbError> {
    match blob_len {
        None => Err(GlbError::NoBinaryBuffer),
        Some(n) => if forall|i: int| 0 <= i < buffers.len() ==> buffer_readable(#[trigger] buffers[i], i, n as nat) {
            Ok(())
        } else {
            Err(GlbError::ExternalOrTruncatedBuffer)
        },
    }
}

/// All geometry must come from the file's own binary chunk: it must exist,
/// and every declared buffer must be that chunk and fit inside it.
pub fn check_glb_buffers(blob_len: Option<usize>, buffers: &[GlbBuffer]) -> (r: Result<(), GlbError>)
    ensures
        r == buffers_verdict(blob_len, buffers@),
{
    let blob = match blob_len {
        None => {
            return Err(GlbError::NoBinaryBuffer);
        },
        Some(n) => n,
    };
    let n = buffers.len();
    let mut i: usize = 0;
    while i < n
        invariant
            i <= n,
            n == buffers@.len(),
            blob_len == Some(blob),
            forall|j: int| 0 <= j < i ==> buffer_readable(#[trigger] buffers@[j], j, blob as nat),
        decreases n - i,
    {
        let b = buffers[i];
        if !b.embedded || i != 0 || b.length > blob {
            assert(!buffer_readable(buffers@[i as int], i as int, blob as nat));
            return Err(GlbError::ExternalOrTruncatedBuffer);
        }
        i = i + 1;
    }
    Ok(())
}

// ---------------------------------------------------------------------------
// Documents

#[verifier::external_type_specification]
#[verifier::external_body]
pub struct ExGltf(gltf::Gltf);

/// What the loader reads from a parsed glTF document before any geometry.
pub struct GltfStructure {
    /// Length of the binary chunk, if the file has one.
    pub blob_len: Option<usize>,
    /// The declared buffers.
    pub buffers: Vec<GlbBuffer>,
    /// The document's default scene, if it names one.
    pub default_scene: Option<usize>,
    /// For each scene, its root nodes.
    pub scene_roots: Vec<Vec<usize>>,
    /// For each node, its children.
    pub children: Vec<Vec<usize>>,
}

/// The structure of a glTF document as mathematical values.
pub struct GltfShape {
    /// Length of the binary chunk, if the file has one.
    pub blob_len: Option<usize>,
    /// The declared buffers.
    pub buffers: Seq<GlbBuffer>,
    /// The document's default scene, if it names one.
    pub default_scene: Option<usize>,
    /// For each scene, its root nodes.
    pub scene_roots: Seq<Seq<usize>>,
    /// For each node, its children.
    pub children: Seq<Seq<usize>>,
}

impl View for GltfStructure {
    type V = GltfShape;

    open spec fn view(&self) -> GltfShape {
        GltfShape {
            blob_len: self.blob_len,
            buffers: self.buffers@,
            default_scene: self.default_scene,
            scene_roots: self.scene_roots@.map_values(|r: Vec<usize>| r@),
            children: graph(&self.children),
        }
    }
}

impl GltfShape {
    /// Every scene and node reference names an existing scene or node.
    pub open spec fn well_indexed(self) -> bool {
        &&& (self.default_scene matches Some(i) ==> i < self.scene_roots.len())
        &&& forall|i: int| 0 <= i < self.scene_roots.len() ==> well_indexed(self.children, #[trigger] self.scene_roots[i])
    }
}

/// The structure of the glTF document that `bytes` hold, as the loader reads
/// it (`gltf::Gltf::from_slice` and the document accessors), or the text of
/// the parser's error when the bytes are not a valid glTF document.
pub uninterp spec fn gltf_shape(bytes: Seq<u8>) -> Result<GltfShape, Seq<char>>;

/// Read from the document that `bytes` hold without validating it
/// (`gltf::Gltf::from_slice_without_validation`): the number of accessors,
/// and for each mesh, for each primitive, the accessor its `POSITION`
/// attribute names, if any; `None` when the bytes do not parse.
pub uninterp spec fn gltf_position_refs(bytes: Seq<u8>) -> Option<(usize, Seq<Seq<Option<usize>>>)>;

/// A binary glTF header that declares a total length shorter than the
/// 12-byte header itself: the magic `glTF`, a version, and a little-endian
/// length below 12.
pub open spec fn glb_length_below_header(bytes: Seq<u8>) -> bool {
    &&& bytes.len() >= 12
    &&& bytes[0] == 0x67u8 && bytes[1] == 0x6cu8 && bytes[2] == 0x54u8 && bytes[3] == 0x46u8
    &&& bytes[8] < 12u8 && bytes[9] == 0u8 && bytes[10] == 0u8 && bytes[11] == 0u8
}

/// Whether the bytes start with a binary glTF header whose declared length
/// is shorter than the header.
fn length_below_header(bytes: &[u8]) -> (r: bool)
    ensures
        r == glb_length_below_header(bytes@),
{
    bytes.len() >= 12 && bytes[0] == 0x67u8 && bytes[1] == 0x6cu8 && bytes[2] == 0x54u8
        && bytes[3] == 0x46u8 && bytes[8] < 12u8 && bytes[9] == 0u8 && bytes[10] == 0u8
        && bytes[11] == 0u8
}

/// Why a file whose header declares a length shorter than the header is refused.
pub open spec fn short_header_text() -> Seq<char> {
    "GLB header declares a length shorter than the header"@
}

/// Some primitive's `POSITION` attribute names an accessor that does not exist.
pub open spec fn positions_dangling(accessors: usize, meshes: Seq<Seq<Option<usize>>>) -> bool {
    exists|m: int, p: int|
        0 <= m < meshes.len() && 0 <= p < meshes[m].len() && (#[trigger] meshes[m][p] matches Some(a)
            && a >= accessors)
}

/// The document that `bytes` hold has a primitive whose `POSITION`
/// attribute names an accessor that does not exist.
pub open spec fn glb_dangling_position(bytes: Seq<u8>) -> bool {
    gltf_position_refs(bytes) matches Some((n, meshes)) && positions_dangling(n, meshes)
}

/// Why a file whose primitive names a missing `POSITION` accessor is refused.
pub open spec fn dangling_position_text() -> Seq<char> {
    "GLB primitive names a POSITION accessor that does not exist"@
}

/// Reads the `POSITION` accessor references of an unvalidated document.
///
/// Trusted: `gltf::Gltf::from_slice_without_validation`, `Document::as_json`,
/// and the `accessors`, `meshes`, `primitives` and `attributes` fields of the
/// JSON root. Claimed: the outcome depends on the bytes alone (named
/// `gltf_position_refs`). Input whose `glTF` header declares less than 12
/// bytes is left out: the header size is subtracted unchecked.
#[verifier::external_body]
fn read_position_refs(bytes: &[u8]) -> (r: Option<(usize, Vec<Vec<Option<usize>>>)>)
    requires
        !glb_length_below_header(bytes@),
    ensures
        match r {
            None => gltf_position_refs(bytes@) is None,
            Some((n, m)) => gltf_position_refs(bytes@) == Some((n, m@.map_values(|v: Vec<Option<usize>>| v@))),
        },
{
    let g = Gltf::from_slice_without_validation(bytes).ok()?;
    let root = g.as_json();
    let meshes = root.meshes.iter().map(|m| {
        m.primitives.iter().map(|p| p.attributes.get(&Checked::Valid(Semantic::Positions)).map(|i| i.value())).collect()
    }).collect();
    Some((root.accessors.len(), meshes))
}

/// Whether some primitive names a `POSITION` accessor past the last one.
fn find_dangling_position(accessors: usize, meshes: &Vec<Vec<Option<usize>>>) -> (r: bool)
    ensures
        r == positions_dangling(accessors, meshes@.map_values(|v: Vec<Option<usize>>| v@)),
{
    let ghost view = meshes@.map_values(|v: Vec<Option<usize>>| v@);
    let mut m: usize = 0;
    while m < meshes.len()
        invariant
            m <= meshes@.len(),
            view == meshes@.map_values(|v: Vec<Option<usize>>| v@),
            forall|i: int, p: int|
                0 <= i < m && 0 <= p < view[i].len() ==> !(#[trigger] view[i][p] matches Some(a) && a >= accessors),
        decreases meshes@.len() - m,
    {
        let prims = &meshes[m];
        let mut p: usize = 0;
        while p < prims.len()
            invariant
                m < meshes@.len(),
                p <= prims@.len(),
                prims@ == view[m as int],
                view == meshes@.map_values(|v: Vec<Option<usize>>| v@),
                forall|i: int, q: int|
                    0 <= i < m && 0 <= q < view[i].len() ==> !(#[trigger] view[i][q] matches Some(a) && a >= accessors),
                forall|q: int| 0 <= q < p ==> !(#[trigger] view[m as int][q] matches Some(a) && a >= accessors),
            decreases prims@.len() - p,
        {
            if let Some(a) = prims[p] {
                if a >= accessors {
                    assert(view[m as int][p as int] matches Some(a) && a >= accessors);
                    return true;
                }
            }
            p = p + 1;
        }
        m = m + 1;
    }
    false
}

/// Parses binary (or JSON) glTF and reads its structure.
///
/// Trusted: `gltf::Gltf::from_slice`, which parses the bytes and validates the
/// document, the `Display` text of its error, and the document accessors
/// `blob`, `buffers` (listed in index order), `default_scene`, `scenes`,
/// `nodes`, `Scene::nodes` and `Node::children` with the source and length of
/// each buffer and the index of each scene and node. Claimed:
/// the outcome depends on the bytes alone (named `gltf_shape`), and after
/// validation every scene and node index the document holds is in range
/// (gltf-json reports `IndexOutOfBounds` otherwise). Nothing is stated of the
/// document itself. Two inputs are left out, on which the parser panics: a
/// `glTF` header declaring less than 12 bytes (the header size is subtracted
/// unchecked), and a primitive whose `POSITION` attribute names a missing
/// accessor (gltf-json's primitive validation indexes the accessor list
/// unchecked).
#[verifier::external_body]
fn parse_gltf(bytes: &[u8]) -> (r: Result<(GltfStructure, Gltf), String>)
    requires
        !glb_length_below_header(bytes@),
        !glb_dangling_position(bytes@),
    ensures
        match r {
            Ok((s, _)) => gltf_shape(bytes@) == Ok::<GltfShape, Seq<char>>(s@) && s@.well_indexed(),
            Err(t) => gltf_shape(bytes@) == Err::<GltfShape, Seq<char>>(t@),
        },
{
    let g = Gltf::from_slice(bytes).map_err(|e| e.to_string())?;
    Ok((GltfStructure {
        blob_len: g.blob.as_ref().map(Vec::len),
        buffers: g.buffers().map(|b| GlbBuffer {
            embedded: matches!(b.source(), Source::Bin),
            length: b.length(),
        }).collect(),
        default_scene: g.default_scene().map(|x| x.index()),
        scene_roots: g.scenes().map(|x| x.nodes().map(|n| n.index()).collect()).collect(),
        children: g.nodes().map(|n| n.children().map(|c| c.index()).collect()).collect(),
    }, g))
}

/// The scene the loader renders: the default scene, else the first one.
pub open spec fn chosen_scene(default_scene: Option<usize>, scene_count: nat) -> Option<usize> {
    match default_scene {
        Some(i) => Some(i),
        None => if scene_count > 0 { Some(0) } else { None },
    }
}

/// The loader's verdict on a document's structure: the buffers must be
/// readable, a scene must exist, and the chosen scene must reach each node
/// only once. On success, the root nodes of the scene to render.
pub open spec fn shape_verdict(v: GltfShape) -> Result<Seq<usize>, GlbError> {
    match buffers_verdict(v.blob_len, v.buffers) {
        Err(e) => Err(e),
        Ok(_) => match chosen_scene(v.default_scene, v.scene_roots.len()) {
            None => Err(GlbError::NoScene),
            Some(i) => if scene_expansion(v.children, v.scene_roots[i as int]).no_duplicates() {
                Ok(v.scene_roots[i as int])
            } else {
                Err(GlbError::RepeatedNode)
            },
        },
    }
}

/// The walk of a scene with the given roots: its nodes are the depth-first
/// pre-order expansion, and each entry records where its parent was walked.
pub open spec fn is_scene_walk(children: Seq<Seq<usize>>, roots: Seq<usize>, entries: Seq<SceneEntry>) -> bool {
    &&& walk_nodes(entries) == scene_expansion(children, roots)
    &&& parents_consistent(children, roots, entries)
}

/// Checks a parsed document's structure before any geometry is read, and
/// walks the scene to render.
pub fn plan_glb(s: &GltfStructure) -> (r: Result<Vec<SceneEntry>, GlbError>)
    requires
        s@.well_indexed(),
    ensures
        match shape_verdict(s@) {
            Ok(roots) => r matches Ok(entries) && is_scene_walk(s@.children, roots, entries@),
            Err(e) => r == Err::<Vec<SceneEntry>, GlbError>(e),
        },
{
    check_glb_buffers(s.blob_len, s.buffers.as_slice())?;
    let scene = match s.default_scene {
        Some(i) => i,
        None => {
            if s.scene_roots.len() == 0 {
                return Err(GlbError::NoScene);
            }
            0
        },
    };
    let roots = &s.scene_roots[scene];
    proof {
        assert(s@.scene_roots[scene as int] == roots@);
        assert(well_indexed(graph(&s.children), roots@));
    }
    walk_scene(&s.children, roots.as_slice())
}

/// The message for a file that is not valid glTF.
pub open spec fn parse_failure_prefix(path: Seq<char>) -> Seq<char> {
    "failed to parse GLB "@ + path + ": "@
}

/// Parses a GLB file's bytes and checks its structure, returning the parsed
/// document and the walk of the scene to render. Errors are reported after
/// the file's `path`: a parse failure as `failed to parse GLB <path>: `
/// followed by the parser's explanation, a structural one as
/// `<path>: <error text>`. Two malformed inputs are refused before the
/// parser validates them: a header declaring a length shorter than itself,
/// and a primitive naming a `POSITION` accessor that does not exist.
pub fn load_glb_document(bytes: &[u8], path: &str) -> (r: Result<(Gltf, Vec<SceneEntry>), String>)
    ensures
        glb_length_below_header(bytes@) ==> (r matches Err(m) && m@ == parse_failure_prefix(path@)
            + short_header_text()),
        !glb_length_below_header(bytes@) && glb_dangling_position(bytes@) ==> (r matches Err(m) && m@
            == parse_failure_prefix(path@) + dangling_position_text()),
        !glb_length_below_header(bytes@) && !glb_dangling_position(bytes@) ==> match gltf_shape(bytes@) {
            Err(t) => r matches Err(m) && m@ == parse_failure_prefix(path@) + t,
            Ok(v) => match shape_verdict(v) {
                Ok(roots) => r matches Ok((_, entries)) && is_scene_walk(v.children, roots, entries@),
                Err(e) => r matches Err(m) && m@ == path@ + ": "@ + e.text(),
            },
        },
{
    proof {
        reveal_strlit("failed to parse GLB ");
        reveal_strlit(": ");
    }
    let mut failure = owned("failed to parse GLB ");
    push_str(&mut failure, path);
    push_str(&mut failure, ": ");
    assert(failure@ =~= parse_failure_prefix(path@));
    if length_below_header(bytes) {
        push_str(&mut failure, "GLB header declares a length shorter than the header");
        return Err(failure);
    }
    if let Some((accessors, meshes)) = read_position_refs(bytes) {
        if find_dangling_position(accessors, &meshes) {
            push_str(&mut failure, "GLB primitive names a POSITION accessor that does not exist");
            return Err(failure);
        }
    }
    let (structure, document) = match parse_gltf(bytes) {
        Ok(parsed) => parsed,
        Err(text) => {
            push_str(&mut failure, text.as_str());
            return Err(failure);
        },
    };
    match plan_glb(&structure) {
        Ok(entries) => Ok((document, entries)),
        Err(e) => {
            let mut m = owned(path);
            push_str(&mut m, ": ");
            let text = e.message();
            push_str(&mut m, text.as_str());
            Err(m)
        },
    }
}

// ---------------------------------------------------------------------------
// Primitives

/// How a primitive's vertices form shapes (the glTF primitive modes).
#[derive(Clone, Copy, Debug, PartialEq, Eq)]
pub enum PrimitiveMode {
    /// Isolated points.
    Points,
    /// Separate line segments.
    Lines,
    /// A closed line loop.
    LineLoop,
    /// A connected line strip.
    LineStrip,
    /// Separate triangles.
    Triangles,
    /// A triangle strip.
    TriangleStrip,
    /// A triangle fan.
    TriangleFan,
}

impl PrimitiveMode {
    /// The mode's name.
    pub open spec fn name(self) -> Seq<char> {
        match self {
            PrimitiveMode::Points => "Points"@,
            PrimitiveMode::Lines => "Lines"@,
            PrimitiveMode::LineLoop => "LineLoop"@,
            PrimitiveMode::LineStrip => "LineStrip"@,
            PrimitiveMode::Triangles => "Triangles"@,
            PrimitiveMode::TriangleStrip => "TriangleStrip"@,
            PrimitiveMode::TriangleFan => "TriangleFan"@,
        }
    }

    fn name_str(&self) -> (r: &'static str)
        ensures
            r@ == self.name(),
    {
        match self {
            PrimitiveMode::Points => "Points",
            PrimitiveMode::Lines => "Lines",
            PrimitiveMode::LineLoop => "LineLoop",
            PrimitiveMode::LineStrip => "LineStrip",
            PrimitiveMode::Triangles => "Triangles",
            PrimitiveMode::TriangleStrip => "TriangleStrip",
            PrimitiveMode::TriangleFan => "TriangleFan",
        }
    }
}

/// A per-vertex attribute of a primitive (normals, colors).
#[derive(Clone, Copy, Debug, PartialEq, Eq)]
pub enum Attribute {
    /// The primitive does not declare it.
    Absent,
    /// Declared, but its accessor cannot be read.
    Unreadable,
    /// Read, with this many values.
    Count(usize),
}

/// The loader's verdict on a primitive's mode and attributes: the number of
/// positions when the primitive is usable.
pub open spec fn primitive_verdict(
    mode: PrimitiveMode,
    positions: Option<usize>,
    normals: Attribute,
    colors: Attribute,
) -> Result<usize, GlbError> {
    if mode != PrimitiveMode::Triangles {
        Err(GlbError::UnsupportedTopology(mode))
    } else {
        match positions {
            None => Err(GlbError::NoPositions),
            Some(p) => match normals {
                Attribute::Unreadable => Err(GlbError::UnreadableNormals),
                Attribute::Count(c) if c != p => Err(GlbError::NormalCountMismatch),
                _ => match colors {
                    Attribute::Unreadable => Err(GlbError::UnreadableColors),
                    Attribute::Count(c) if c != p => Err(GlbError::ColorCountMismatch),
                    _ => Ok(p),
                },
            },
        }
    }
}

/// Only triangle lists are loaded: the topology is checked before any of the
/// primitive's attributes is read.
pub fn check_topology(mode: PrimitiveMode) -> (r: Result<(), GlbError>)
    ensures
        r == (if mode == PrimitiveMode::Triangles {
            Ok::<(), GlbError>(())
        } else {
            Err(GlbError::UnsupportedTopology(mode))
        }),
{
    match mode {
        PrimitiveMode::Triangles => Ok(()),
        _ => Err(GlbError::UnsupportedTopology(mode)),
    }
}

/// Only triangle lists with readable positions are loaded; declared normals
/// and colors must be readable and give one value per position.
pub fn check_primitive(
    mode: PrimitiveMode,
    positions: Option<usize>,
    normals: Attribute,
    colors: Attribute,
) -> (r: Result<usize, GlbError>)
    ensures
        r == primitive_verdict(mode, positions, normals, colors),
{
    match mode {
        PrimitiveMode::Triangles => {},
        _ => {
            return Err(GlbError::UnsupportedTopology(mode));
        },
    }
    let p = match positions {
        None => {
            return Err(GlbError::NoPositions);
        },
        Some(p) => p,
    };
    match normals {
        Attribute::Unreadable => {
            return Err(GlbError::UnreadableNormals);
        },
        Attribute::Count(c) => {
            if c != p {
                return Err(GlbError::NormalCountMismatch);
            }
        },
        Attribute::Absent => {},
    }
    match colors {
        Attribute::Unreadable => {
            return Err(GlbError::UnreadableColors);
        },
        Attribute::Count(c) => {
            if c != p {
                return Err(GlbError::ColorCountMismatch);
            }
        },
        Attribute::Absent => {},
    }
    Ok(p)
}

/// A primitive's own vertex indices.
#[derive(Debug, PartialEq, Eq)]
pub enum PrimitiveIndices {
    /// No index accessor: consecutive vertices form the triangles.
    Absent,
    /// An index accessor is declared but cannot be read.
    Unreadable,
    /// The indices, local to the primitive.
    Listed(Vec<u32>),
}

/// The first problem among the first `k` listed indices, each of which must
/// name one of the primitive's `positions_len` vertices and, offset by
/// `base`, still fit in 32 bits.
pub open spec fn listed_index_error(v: Seq<u32>, positions_len: nat, base: nat, k: nat) -> Option<GlbError>
    decreases k,
{
    if k == 0 {
        None
    } else {
        match listed_index_error(v, positions_len, base, (k - 1) as nat) {
            Some(e) => Some(e),
            None => if v[k - 1] >= positions_len {
                Some(GlbError::IndexOutOfRange)
            } else if base + v[k - 1] > u32::MAX {
                Some(GlbError::IndexOverflow)
            } else {
                None
            },
        }
    }
}

/// The triangle list a primitive contributes, in its own winding, when its
/// vertices are numbered from `vertices_before`.
pub open spec fn primitive_triangles(
    vertices_before: nat,
    positions_len: nat,
    indices: PrimitiveIndices,
) -> Result<Seq<u32>, GlbError> {
    if vertices_before > u32::MAX {
        Err(GlbError::TooManyVertices)
    } else {
        match indices {
            PrimitiveIndices::Unreadable => Err(GlbError::UnreadableIndices),
            PrimitiveIndices::Listed(v) => match listed_index_error(v@, positions_len, vertices_before, v@.len()) {
                Some(e) => Err(e),
                None => if v@.len() % 3 != 0 {
                    Err(GlbError::IncompleteIndexedTriangle)
                } else {
                    Ok(v@.map_values(|i: u32| (vertices_before + i) as u32))
                },
            },
            PrimitiveIndices::Absent => if positions_len % 3 != 0 {
                Err(GlbError::IncompleteTriangle)
            } else if vertices_before + positions_len > u32::MAX {
                Err(GlbError::TooManyVertices)
            } else {
                Ok(Seq::new(positions_len, |k: int| (vertices_before + k) as u32))
            },
        }
    }
}

/// A triangle list with each triangle's second and third vertices swapped
/// (the first vertex, which gives the flat color, stays first).
pub open spec fn swap_winding(s: Seq<u32>) -> Seq<u32> {
    Seq::new(
        s.len(),
        |k: int|
            if k % 3 == 1 {
                s[k + 1]
            } else if k % 3 == 2 {
                s[k - 1]
            } else {
                s[k]
            },
    )
}

/// Appends a primitive's triangles, numbered after the `vertices_before`
/// vertices already loaded, to the merged index list. Under a reflecting
/// node transform the winding of each triangle is reversed so back-face
/// culling and lighting stay correct. On error nothing is appended.
pub fn append_primitive_indices(
    out: &mut Vec<u32>,
    vertices_before: usize,
    positions_len: usize,
    indices: &PrimitiveIndices,
    reflected: bool,
) -> (r: Result<(), GlbError>)
    requires
        vertices_before + positions_len <= usize::MAX,
    ensures
        match primitive_triangles(vertices_before as nat, positions_len as nat, *indices) {
            Ok(s) => r is Ok && final(out)@ == old(out)@ + (if reflected { swap_winding(s) } else { s }),
            Err(e) => r == Err::<(), GlbError>(e) && final(out)@ == old(out)@,
        },
{
    if vertices_before > 0xffff_ffff {
        return Err(GlbError::TooManyVertices);
    }
    let base = vertices_before as u32;
    let mut local: Vec<u32> = Vec::new();
    match indices {
        PrimitiveIndices::Unreadable => {
            return Err(GlbError::UnreadableIndices);
        },
        PrimitiveIndices::Listed(v) => {
            let n = v.len();
            let mut k: usize = 0;
            while k < n
                invariant
                    k <= n,
                    n == v@.len(),
                    base == vertices_before,
                    vertices_before <= u32::MAX,
                    out@ == old(out)@,
                    match *indices {
                        PrimitiveIndices::Listed(w) => w@ == v@,
                        _ => false,
                    },
                    listed_index_error(v@, positions_len as nat, vertices_before as nat, k as nat) is None,
                    local@ == v@.take(k as int).map_values(|i: u32| (vertices_before + i) as u32),
                decreases n - k,
            {
                let index = v[k];
                if (index as usize) >= positions_len {
                    proof {
                        lemma_listed_error_persists(v@, positions_len as nat, vertices_before as nat, (k + 1) as nat, n as nat);
                    }
                    return Err(GlbError::IndexOutOfRange);
                }
                let shifted = match base.checked_add(index) {
                    Some(x) => x,
                    None => {
                        proof {
                            lemma_listed_error_persists(v@, positions_len as nat, vertices_before as nat, (k + 1) as nat, n as nat);
                        }
                        return Err(GlbError::IndexOverflow);
                    },
                };
                local.push(shifted);
                k = k + 1;
                assert(local@ =~= v@.take(k as int).map_values(|i: u32| (vertices_before + i) as u32));
            }
            assert(v@.take(n as int) =~= v@);
            if n % 3 != 0 {
                return Err(GlbError::IncompleteIndexedTriangle);
            }
        },
        PrimitiveIndices::Absent => {
            if positions_len % 3 != 0 {
                return Err(GlbError::IncompleteTriangle);
            }
            if vertices_before + positions_len > 0xffff_ffff {
                return Err(GlbError::TooManyVertices);
            }
            let mut k: usize = 0;
            while k < positions_len
                invariant
                    k <= positions_len,
                    base == vertices_before,
                    vertices_before + positions_len <= u32::MAX,
                    local@ == Seq::new(k as nat, |j: int| (vertices_before + j) as u32),
                decreases positions_len - k,
            {
                local.push(base + k as u32);
                k = k + 1;
                assert(local@ =~= Seq::new(k as nat, |j: int| (vertices_before + j) as u32));
            }
        },
    }
    let ghost plain = local@;
    if reflected {
        swap_triangle_winding(&mut local);
    }
    let mut j: usize = 0;
    let ghost start = out@;
    while j < local.len()
        invariant
            j <= local@.len(),
            out@ == start + local@.take(j as int),
        decreases local@.len() - j,
    {
        out.push(local[j]);
        j = j + 1;
        assert(out@ =~= start + local@.take(j as int));
    }
    assert(local@.take(local@.len() as int) =~= local@);
    Ok(())
}

/// Reversing the winding twice restores the original triangle list.
pub proof fn lemma_swap_winding_involution(s: Seq<u32>)
    requires
        s.len() % 3 == 0,
    ensures
        swap_winding(swap_winding(s)) == s,
{
    let once = swap_winding(s);
    assert forall|k: int| 0 <= k < s.len() implies #[trigger] swap_winding(once)[k] == s[k] by {
        if k % 3 == 1 {
            assert((k + 1) % 3 == 2);
        } else if k % 3 == 2 {
            assert((k - 1) % 3 == 1);
        }
    }
    assert(swap_winding(once) =~= s);
}

proof fn lemma_listed_ok_in_range(v: Seq<u32>, positions_len: nat, base: nat, k: nat)
    requires
        k <= v.len(),
        listed_index_error(v, positions_len, base, k) is None,
    ensures
        forall|i: int| 0 <= i < k ==> #[trigger] v[i] < positions_len && base + v[i] <= u32::MAX,
    decreases k,
{
    if k > 0 {
        lemma_listed_ok_in_range(v, positions_len, base, (k - 1) as nat);
    }
}

/// Every index a primitive contributes names one of its own vertices, which
/// are numbered from `vertices_before`; the list holds whole triangles.
pub proof fn lemma_primitive_indices_in_range(vertices_before: nat, positions_len: nat, indices: PrimitiveIndices)
    requires
        primitive_triangles(vertices_before, positions_len, indices) is Ok,
    ensures
        ({
            let s = primitive_triangles(vertices_before, positions_len, indices)->Ok_0;
            &&& s.len() % 3 == 0
            &&& forall|k: int|
                0 <= k < s.len() ==> vertices_before <= #[trigger] s[k] < vertices_before + positions_len
        }),
{
    match indices {
        PrimitiveIndices::Listed(v) => {
            lemma_listed_ok_in_range(v@, positions_len, vertices_before, v@.len());
        },
        _ => {},
    }
}

proof fn lemma_listed_error_persists(v: Seq<u32>, positions_len: nat, base: nat, k: nat, n: nat)
    requires
        k <= n,
        listed_index_error(v, positions_len, base, k) is Some,
    ensures
        listed_index_error(v, positions_len, base, n) == listed_index_error(v, positions_len, base, k),
    decreases n - k,
{
    if k < n {
        lemma_listed_error_persists(v, positions_len, base, k, (n - 1) as nat);
    }
}

/// Swaps the second and third vertex of every triangle of a whole-triangle list.
fn swap_triangle_winding(v: &mut Vec<u32>)
    requires
        old(v)@.len() % 3 == 0,
    ensures
        final(v)@ == swap_winding(old(v)@),
{
    let ghost orig = old(v)@;
    let n = v.len();
    let mut t: usize = 0;
    while t < n / 3
        invariant
            n == orig.len(),
            n % 3 == 0,
            t <= n / 3,
            v@.len() == n,
            forall|k: int| 0 <= k < 3 * t ==> v@[k] == #[trigger] swap_winding(orig)[k],
            forall|k: int| 3 * t <= k < n ==> v@[k] == orig[k],
        decreases n / 3 - t,
    {
        let b = v[3 * t + 1];
        let c = v[3 * t + 2];
        v.set(3 * t + 1, c);
        v.set(3 * t + 2, b);
        t = t + 1;
    }
    assert(v@ =~= swap_winding(orig));
}

/// The number of vertices a node's primitives bring, each primitive given as
/// `(positions_len, indices, reflected)`.
pub open spec fn node_vertices(prims: Seq<(nat, PrimitiveIndices, bool)>) -> nat
    decreases prims.len(),
{
    if prims.len() == 0 {
        0
    } else {
        node_vertices(prims.drop_last()) + prims.last().0
    }
}

/// The triangles a node's primitives append when `append_primitive_indices`
/// is called for each in turn, each numbered after the vertices of the
/// primitives before it (starting from `vertices_before`), with the winding
/// reversed for a reflected one. The first error stops the node.
pub open spec fn node_triangles(vertices_before: nat, prims: Seq<(nat, PrimitiveIndices, bool)>) -> Result<Seq<u32>, GlbError>
    decreases prims.len(),
{
    if prims.len() == 0 {
        Ok(Seq::empty())
    } else {
        match node_triangles(vertices_before, prims.drop_last()) {
            Err(e) => Err(e),
            Ok(s) => {
                let p = prims.last();
                match primitive_triangles(vertices_before + node_vertices(prims.drop_last()), p.0, p.1) {
                    Err(e) => Err(e),
                    Ok(t) => Ok(s + if p.2 { swap_winding(t) } else { t }),
                }
            },
        }
    }
}

/// Swapping the winding keeps every index of a whole-triangle list.
proof fn lemma_swap_winding_keeps_range(t: Seq<u32>, lo: nat, hi: nat)
    requires
        t.len() % 3 == 0,
        forall|k: int| 0 <= k < t.len() ==> lo <= #[trigger] t[k] < hi,
    ensures
        swap_winding(t).len() == t.len(),
        forall|k: int| 0 <= k < t.len() ==> lo <= #[trigger] swap_winding(t)[k] < hi,
{
    assert forall|k: int| 0 <= k < t.len() implies lo <= #[trigger] swap_winding(t)[k] < hi by {
        if k % 3 == 1 {
            assert(t[k + 1] == swap_winding(t)[k]);
        } else if k % 3 == 2 {
            assert(t[k - 1] == swap_winding(t)[k]);
        }
    }
}

/// What a node appends is whole triangles, and every index names one of the
/// vertices its primitives brought: from `vertices_before` up to
/// `vertices_before + node_vertices(prims)`.
pub proof fn lemma_node_triangles_in_range(vertices_before: nat, prims: Seq<(nat, PrimitiveIndices, bool)>)
    requires
        node_triangles(vertices_before, prims) is Ok,
    ensures
        ({
            let s = node_triangles(vertices_before, prims)->Ok_0;
            &&& s.len() % 3 == 0
            &&& forall|k: int|
                0 <= k < s.len() ==> vertices_before <= #[trigger] s[k] < vertices_before + node_vertices(prims)
        }),
    decreases prims.len(),
{
    if prims.len() > 0 {
        let rest = prims.drop_last();
        lemma_node_triangles_in_range(vertices_before, rest);
        let s = node_triangles(vertices_before, rest)->Ok_0;
        let p = prims.last();
        let base = vertices_before + node_vertices(rest);
        lemma_primitive_indices_in_range(base, p.0, p.1);
        let t = primitive_triangles(base, p.0, p.1)->Ok_0;
        lemma_swap_winding_keeps_range(t, base, base + p.0);
        let u = if p.2 { swap_winding(t) } else { t };
        let all = s + u;
        assert forall|k: int| 0 <= k < all.len() implies vertices_before <= #[trigger] all[k] < vertices_before
            + node_vertices(prims) by {
            if k < s.len() {
                assert(all[k] == s[k]);
            } else {
                assert(all[k] == u[k - s.len()]);
            }
        }
    }
}

// ---------------------------------------------------------------------------
// Errors

/// Why a GLB file is refused.
#[derive(Clone, Copy, Debug, PartialEq, Eq)]
pub enum GlbError {
    /// The file has no binary chunk.
    NoBinaryBuffer,
    /// A buffer is external, or longer than the binary chunk.
    ExternalOrTruncatedBuffer,
    /// The file has no scene.
    NoScene,
    /// The scene reaches some node twice.
    RepeatedNode,
    /// A primitive is not a triangle list.
    UnsupportedTopology(PrimitiveMode),
    /// A primitive has no positions.
    NoPositions,
    /// Declared normals cannot be read.
    UnreadableNormals,
    /// Normals and positions differ in number.
    NormalCountMismatch,
    /// Declared colors cannot be read.
    UnreadableColors,
    /// Colors and positions differ in number.
    ColorCountMismatch,
    /// Vertex numbers do not fit in 32 bits.
    TooManyVertices,
    /// A declared index accessor cannot be read.
    UnreadableIndices,
    /// An index names a vertex outside its primitive.
    IndexOutOfRange,
    /// An offset index does not fit in 32 bits.
    IndexOverflow,
    /// An indexed primitive's index count is not a multiple of three.
    IncompleteIndexedTriangle,
    /// A non-indexed primitive's vertex count is not a multiple of three.
    IncompleteTriangle,
    /// A position accessor's layout cannot be read safely.
    UnreadablePositions,
    /// An accessor would decode to more than the per-accessor budget.
    AccessorTooLarge,
}

impl GlbError {
    /// The text of the error.
    pub open spec fn text(self) -> Seq<char> {
        match self {
            GlbError::NoBinaryBuffer => "GLB contains no binary buffer"@,
            GlbError::ExternalOrTruncatedBuffer => "GLB buffer is external or truncated"@,
            GlbError::NoScene => "GLB contains no scene"@,
            GlbError::RepeatedNode => "GLB scene contains a cycle or repeated node"@,
            GlbError::UnsupportedTopology(m) => "GLB primitive uses unsupported "@ + m.name()
                + " topology (expected triangles)"@,
            GlbError::NoPositions => "GLB primitive has no positions"@,
            GlbError::UnreadableNormals => "GLB normal accessor is unreadable"@,
            GlbError::NormalCountMismatch => "GLB position/normal counts differ"@,
            GlbError::UnreadableColors => "GLB color accessor is unreadable"@,
            GlbError::ColorCountMismatch => "GLB position/color counts differ"@,
            GlbError::TooManyVertices => "GLB has too many vertices"@,
            GlbError::UnreadableIndices => "GLB index accessor is unreadable"@,
            GlbError::IndexOutOfRange => "GLB primitive has an out-of-range vertex index"@,
            GlbError::IndexOverflow => "GLB vertex index overflow"@,
            GlbError::IncompleteIndexedTriangle => "GLB primitive has an incomplete triangle index list"@,
            GlbError::IncompleteTriangle => "non-indexed GLB primitive has an incomplete triangle"@,
            GlbError::UnreadablePositions => "GLB position accessor is unreadable"@,
            GlbError::AccessorTooLarge => "GLB accessor exceeds the 256 MiB decoded budget"@,
        }
    }

    /// The text of the error, as the loader reports it after the file name.
    pub fn message(&self) -> (r: String)
        ensures
            r@ == self.text(),
    {
        match self {
            GlbError::NoBinaryBuffer => owned("GLB contains no binary buffer"),
            GlbError::ExternalOrTruncatedBuffer => owned("GLB buffer is external or truncated"),
            GlbError::NoScene => owned("GLB contains no scene"),
            GlbError::RepeatedNode => owned("GLB scene contains a cycle or repeated node"),
            GlbError::UnsupportedTopology(m) => {
                let mut s = owned("GLB primitive uses unsupported ");
                push_str(&mut s, m.name_str());
                push_str(&mut s, " topology (expected triangles)");
                s
            },
            GlbError::NoPositions => owned("GLB primitive has no positions"),
            GlbError::UnreadableNormals => owned("GLB normal accessor is unreadable"),
            GlbError::NormalCountMismatch => owned("GLB position/normal counts differ"),
            GlbError::UnreadableColors => owned("GLB color accessor is unreadable"),
            GlbError::ColorCountMismatch => owned("GLB position/color counts differ"),
            GlbError::TooManyVertices => owned("GLB has too many vertices"),
            GlbError::UnreadableIndices => owned("GLB index accessor is unreadable"),
            GlbError::IndexOutOfRange => owned("GLB primitive has an out-of-range vertex index"),
            GlbError::IndexOverflow => owned("GLB vertex index overflow"),
            GlbError::IncompleteIndexedTriangle => owned("GLB primitive has an incomplete triangle index list"),
            GlbError::IncompleteTriangle => owned("non-indexed GLB primitive has an incomplete triangle"),
            GlbError::UnreadablePositions => owned("GLB position accessor is unreadable"),
            GlbError::AccessorTooLarge => owned("GLB accessor exceeds the 256 MiB decoded budget"),
        }
    }
}

} // verus!
