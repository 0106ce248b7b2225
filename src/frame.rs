//! Frame batching: vertex runs keyed by texture, merged with the previous
//! run whenever the texture is the same, so that each run is one draw call.
use vstd::prelude::*;

use crate::TextureId;

verus! {

/// A run of vertices drawn with one texture, or with none (flat shapes).
pub struct TexturedBuffer<V> {
    pub texture: Option<TextureId>,
    pub vertices: Vec<V>,
}

impl<V> TexturedBuffer<V> {
    pub fn with_texture(texture: TextureId) -> (r: Self)
        ensures
            r.texture == Some(texture),
            r.vertices@.len() == 0,
    {
        TexturedBuffer { texture: Some(texture), vertices: Vec::new() }
    }

    pub fn with_texture_and_buffer(texture: TextureId, vertices: Vec<V>) -> (r: Self)
        ensures
            r.texture == Some(texture),
            r.vertices@ == vertices@,
    {
        TexturedBuffer { texture: Some(texture), vertices }
    }

    pub fn with_buffer(vertices: Vec<V>) -> (r: Self)
        ensures
            r.texture is None,
            r.vertices@ == vertices@,
    {
        TexturedBuffer { texture: None, vertices }
    }

    pub fn new() -> (r: Self)
        ensures
            r.texture is None,
            r.vertices@.len() == 0,
    {
        TexturedBuffer { texture: None, vertices: Vec::new() }
    }

    pub open spec fn run(&self) -> (Option<TextureId>, Seq<V>) {
        (self.texture, self.vertices@)
    }
}

/// Appends a run: merged into the last run when that one has the same
/// texture, opened as a new run otherwise.
pub open spec fn push_run<V>(
    runs: Seq<(Option<TextureId>, Seq<V>)>,
    run: (Option<TextureId>, Seq<V>),
) -> Seq<(Option<TextureId>, Seq<V>)> {
    if runs.len() > 0 && runs.last().0 == run.0 {
        runs.drop_last().push((run.0, runs.last().1 + run.1))
    } else {
        runs.push(run)
    }
}

/// The runs of a frame after adding `items` in order to `runs`.
pub open spec fn push_runs<V>(
    runs: Seq<(Option<TextureId>, Seq<V>)>,
    items: Seq<(Option<TextureId>, Seq<V>)>,
) -> Seq<(Option<TextureId>, Seq<V>)>
    decreases items.len(),
{
    if items.len() == 0 {
        runs
    } else {
        push_run(push_runs(runs, items.drop_last()), items.last())
    }
}

/// No two neighbouring runs share a texture.
pub open spec fn is_batched<V>(runs: Seq<(Option<TextureId>, Seq<V>)>) -> bool {
    forall|i: int| 0 < i < runs.len() ==> #[trigger] runs[i].0 != runs[i - 1].0
}

/// How many items of `items` have a texture other than the item before.
pub open spec fn texture_changes<V>(items: Seq<(Option<TextureId>, Seq<V>)>) -> nat
    decreases items.len(),
{
    if items.len() <= 1 {
        0
    } else {
        texture_changes(items.drop_last()) + if items.last().0 != items[items.len() - 2].0 {
            1nat
        } else {
            0nat
        }
    }
}

/// All vertices of a run sequence, in drawing order.
pub open spec fn all_vertices<V>(runs: Seq<(Option<TextureId>, Seq<V>)>) -> Seq<V>
    decreases runs.len(),
{
    if runs.len() == 0 {
        Seq::empty()
    } else {
        all_vertices(runs.drop_last()) + runs.last().1
    }
}

/// Adding runs to a batched sequence keeps it batched.
pub proof fn lemma_push_runs_batched<V>(
    runs: Seq<(Option<TextureId>, Seq<V>)>,
    items: Seq<(Option<TextureId>, Seq<V>)>,
)
    requires
        is_batched(runs),
    ensures
        is_batched(push_runs(runs, items)),
    decreases items.len(),
{
    if items.len() > 0 {
        lemma_push_runs_batched(runs, items.drop_last());
        let p = push_runs(runs, items.drop_last());
        let q = push_run(p, items.last());
        assert forall|i: int| 0 < i < q.len() implies #[trigger] q[i].0 != q[i - 1].0 by {
            assert(p[i - 1] == q[i - 1] || i - 1 == p.len() - 1);
            if i < p.len() {
                assert(p[i].0 == q[i].0);
            }
        }
    }
}

/// Starting from an empty frame, the number of runs is one more than the
/// number of texture changes between consecutive additions, and the last run
/// has the texture of the last addition: runs merge only with the run just
/// before, never with an earlier one.
pub proof fn lemma_run_count<V>(items: Seq<(Option<TextureId>, Seq<V>)>)
    requires
        items.len() > 0,
    ensures
        push_runs(Seq::empty(), items).len() == 1 + texture_changes(items),
        push_runs(Seq::empty(), items).last().0 == items.last().0,
    decreases items.len(),
{
    if items.len() > 1 {
        lemma_run_count(items.drop_last());
        assert(items.drop_last().last() == items[items.len() - 2]);
        let p = push_runs(Seq::<(Option<TextureId>, Seq<V>)>::empty(), items.drop_last());
        assert(push_runs(Seq::empty(), items) == push_run(p, items.last()));
        assert(texture_changes(items) == texture_changes(items.drop_last()) + if items.last().0
            != items[items.len() - 2].0 {
            1nat
        } else {
            0nat
        });
    } else {
        let e = Seq::<(Option<TextureId>, Seq<V>)>::empty();
        assert(items.drop_last().len() == 0);
        assert(push_runs(e, items.drop_last()) == e);
        assert(push_runs(e, items) == push_run(e, items.last()));
    }
}

/// Batching keeps every vertex, in the order the vertices were added.
pub proof fn lemma_vertices_kept<V>(
    runs: Seq<(Option<TextureId>, Seq<V>)>,
    items: Seq<(Option<TextureId>, Seq<V>)>,
)
    ensures
        all_vertices(push_runs(runs, items)) == all_vertices(runs) + all_vertices(items),
    decreases items.len(),
{
    if items.len() == 0 {
        assert(all_vertices(runs) + all_vertices(items) =~= all_vertices(runs));
    } else {
        lemma_vertices_kept(runs, items.drop_last());
        let p = push_runs(runs, items.drop_last());
        let it = items.last();
        if p.len() > 0 && p.last().0 == it.0 {
            let q = p.drop_last().push((it.0, p.last().1 + it.1));
            assert(q.drop_last() == p.drop_last());
            assert(all_vertices(p) == all_vertices(p.drop_last()) + p.last().1);
            assert(all_vertices(q) =~= all_vertices(p) + it.1);
        } else {
            assert(p.push(it).drop_last() == p);
        }
        assert(all_vertices(runs) + all_vertices(items) =~= all_vertices(runs) + all_vertices(
            items.drop_last(),
        ) + it.1);
    }
}

/// Any number of additions that all use one texture end up as a single run.
pub proof fn lemma_same_texture_one_run<V>(
    items: Seq<(Option<TextureId>, Seq<V>)>,
    texture: Option<TextureId>,
)
    requires
        items.len() > 0,
        forall|i: int| 0 <= i < items.len() ==> #[trigger] items[i].0 == texture,
    ensures
        push_runs(Seq::empty(), items).len() == 1,
    decreases items.len(),
{
    lemma_run_count(items);
    lemma_no_changes(items, texture);
}

proof fn lemma_no_changes<V>(items: Seq<(Option<TextureId>, Seq<V>)>, texture: Option<TextureId>)
    requires
        forall|i: int| 0 <= i < items.len() ==> #[trigger] items[i].0 == texture,
    ensures
        texture_changes(items) == 0,
    decreases items.len(),
{
    if items.len() > 1 {
        lemma_no_changes(items.drop_last(), texture);
        assert(items[items.len() - 2].0 == texture);
        assert(items[items.len() - 1].0 == texture);
    }
}

proof fn lemma_alternating_changes<V>(
    items: Seq<(Option<TextureId>, Seq<V>)>,
    a: Option<TextureId>,
    b: Option<TextureId>,
)
    requires
        a != b,
        items.len() > 0,
        forall|i: int| 0 <= i < items.len() ==> #[trigger] items[i].0 == if i % 2 == 0 { a } else { b },
    ensures
        texture_changes(items) == items.len() - 1,
    decreases items.len(),
{
    if items.len() > 1 {
        lemma_alternating_changes(items.drop_last(), a, b);
        let n = items.len() as int;
        assert(items[n - 1].0 == if (n - 1) % 2 == 0 { a } else { b });
        assert(items[n - 2].0 == if (n - 2) % 2 == 0 { a } else { b });
        assert(items[n - 1].0 != items[n - 2].0);
    }
}

/// Alternating between two distinct textures `k` times (a, b, a, b, ...)
/// gives `2k` runs: same-texture runs that are not neighbours never merge.
pub proof fn lemma_alternating_runs<V>(
    items: Seq<(Option<TextureId>, Seq<V>)>,
    a: Option<TextureId>,
    b: Option<TextureId>,
    k: nat,
)
    requires
        a != b,
        k > 0,
        items.len() == 2 * k,
        forall|i: int| 0 <= i < items.len() ==> #[trigger] items[i].0 == if i % 2 == 0 { a } else { b },
    ensures
        push_runs(Seq::empty(), items).len() == 2 * k,
{
    lemma_run_count(items);
    lemma_alternating_changes(items, a, b);
}

/// The draw data of one frame: its runs in drawing order.
pub struct Frame<V> {
    pub buffers: Vec<TexturedBuffer<V>>,
}

impl<V> Frame<V> {
    pub open spec fn runs(&self) -> Seq<(Option<TextureId>, Seq<V>)> {
        self.buffers@.map_values(|b: TexturedBuffer<V>| b.run())
    }

    pub open spec fn wf(&self) -> bool {
        is_batched(self.runs())
    }

    pub fn new() -> (r: Self)
        ensures
            r.runs().len() == 0,
            r.wf(),
    {
        Frame { buffers: Vec::new() }
    }

    pub fn clear(&mut self)
        ensures
            final(self).runs().len() == 0,
            final(self).wf(),
    {
        self.buffers.clear();
    }

    /// Adds a run of vertices, merging it into the last run when the textures
    /// match.
    pub fn add_buffer(&mut self, buffer: TexturedBuffer<V>)
        requires
            old(self).wf(),
        ensures
            final(self).wf(),
            final(self).runs() == push_run(old(self).runs(), buffer.run()),
    {
        let ghost old_runs = self.runs();
        let ghost item = buffer.run();
        let len = self.buffers.len();
        if len > 0 && self.buffers[len - 1].texture == buffer.texture {
            let mut last = self.buffers.pop().unwrap();
            let mut vertices = buffer.vertices;
            last.vertices.append(&mut vertices);
            self.buffers.push(last);
            proof {
                assert(self.runs() =~= push_run(old_runs, item));
            }
        } else {
            self.buffers.push(buffer);
            proof {
                assert(self.runs() =~= push_run(old_runs, item));
            }
        }
    }
}

} // verus!
