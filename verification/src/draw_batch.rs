use vstd::prelude::*;

verus! {

/// The triangles of one atlas page: vertices, and indices into them, three per
/// triangle.
pub struct Batch<V> {
    vertices: Vec<V>,
    indices: Vec<i32>,
}

/// Quads to draw, sorted by the atlas page their bitmaps lie on.
pub struct DrawBatch<V> {
    batches: Vec<Batch<V>>,
}

/// Every index of every page names a vertex of that page.
pub open spec fn indices_valid<V>(pages: Seq<(Seq<V>, Seq<i32>)>) -> bool {
    forall|p: int, k: int|
        0 <= p < pages.len() && 0 <= k < pages[p].1.len() ==> 0 <= #[trigger] pages[p].1[k]
            < pages[p].0.len()
}

/// The six indices of the two triangles of a quad whose first vertex is `n`.
pub open spec fn quad_indices(n: int) -> Seq<i32> {
    seq![n as i32, (n + 1) as i32, (n + 2) as i32, n as i32, (n + 2) as i32, (n + 3) as i32]
}

/// The pages after adding a quad with vertices `quad` to page `page`: missing
/// pages are created empty, and the quad's two triangles are appended.
pub open spec fn pages_with_quad<V>(pages: Seq<(Seq<V>, Seq<i32>)>, page: int, quad: Seq<V>) -> Seq<
    (Seq<V>, Seq<i32>),
> {
    let p = padded(pages, page);
    p.update(page, (p[page].0 + quad, p[page].1 + quad_indices(p[page].0.len() as int)))
}

/// The pages with page `page` created (empty) if it was missing.
pub open spec fn padded<V>(pages: Seq<(Seq<V>, Seq<i32>)>, page: int) -> Seq<(Seq<V>, Seq<i32>)> {
    if page < pages.len() {
        pages
    } else {
        pages + Seq::new(
            (page + 1 - pages.len()) as nat,
            |i: int| (Seq::<V>::empty(), Seq::<i32>::empty()),
        )
    }
}

impl<V> DrawBatch<V> {
    /// The pages, each as its vertices and its indices.
    pub closed spec fn pages(&self) -> Seq<(Seq<V>, Seq<i32>)> {
        self.batches@.map_values(|b: Batch<V>| (b.vertices@, b.indices@))
    }

    /// An empty batch.
    pub fn new() -> (r: Self)
        ensures
            r.pages() == Seq::<(Seq<V>, Seq<i32>)>::empty(),
    {
        let r = DrawBatch { batches: Vec::new() };
        assert(r.pages() =~= Seq::<(Seq<V>, Seq<i32>)>::empty());
        r
    }

    /// Makes sure that page `page` exists, adding empty pages as needed.
    fn ensure_batch(&mut self, page: usize)
        requires
            page < usize::MAX,
        ensures
            final(self).pages() == padded(old(self).pages(), page as int),
    {
        let ghost old_pages = self.pages();
        while page >= self.batches.len()
            invariant
                page < usize::MAX,
                old_pages.len() <= self.batches@.len(),
                self.batches@.len() <= old_pages.len() || self.batches@.len() <= page + 1,
                self.pages() =~= old_pages + Seq::new(
                    (self.batches@.len() - old_pages.len()) as nat,
                    |i: int| (Seq::<V>::empty(), Seq::<i32>::empty()),
                ),
            decreases page + 1 - self.batches@.len(),
        {
            let ghost before = self.batches@;
            let ghost before_pages = self.pages();
            let b = Batch { vertices: Vec::new(), indices: Vec::new() };
            self.batches.push(b);
            assert(self.batches@ == before.push(b));
            assert(self.batches@[self.batches@.len() - 1].vertices@ == Seq::<V>::empty());
            assert(self.pages() =~= before_pages.push((Seq::<V>::empty(), Seq::<i32>::empty())));
            assert(self.pages() =~= old_pages + Seq::new(
                (self.batches@.len() - old_pages.len()) as nat,
                |i: int| (Seq::<V>::empty(), Seq::<i32>::empty()),
            ));
        }
    }
}


impl<V: Copy> DrawBatch<V> {
    fn add_vertices(&mut self, vertices: &[V], page: usize)
        requires
            page < usize::MAX,
        ensures
            ({
                let p = padded(old(self).pages(), page as int);
                final(self).pages() == p.update(page as int, (p[page as int].0 + vertices@, p[page as int].1))
            }),
    {
        self.ensure_batch(page);
        let ghost p = self.pages();
        let mut k: usize = 0;
        while k < vertices.len()
            invariant
                page < p.len(),
                self.batches@.len() == p.len(),
                k <= vertices@.len(),
                self.pages() == p.update(
                    page as int,
                    (p[page as int].0 + vertices@.subrange(0, k as int), p[page as int].1),
                ),
            decreases vertices@.len() - k,
        {
            let ghost before = self.pages();
            assert(before[page as int] == (p[page as int].0 + vertices@.subrange(0, k as int), p[page as int].1));
            let v = vertices[k];
            self.batches[page].vertices.push(v);
            assert(self.pages() =~= before.update(page as int, (before[page as int].0.push(v), before[page as int].1)));
            assert(vertices@.subrange(0, k + 1) =~= vertices@.subrange(0, k as int).push(v));
            assert(p[page as int].0 + vertices@.subrange(0, k + 1) =~= (p[page as int].0 + vertices@.subrange(0, k as int)).push(v));
            k += 1;
            assert(self.pages() =~= p.update(
                page as int,
                (p[page as int].0 + vertices@.subrange(0, k as int), p[page as int].1),
            ));
        }
        assert(vertices@.subrange(0, vertices@.len() as int) =~= vertices@);
    }

    fn add_indices(&mut self, indices: &[i32], page: usize)
        requires
            page < usize::MAX,
        ensures
            ({
                let p = padded(old(self).pages(), page as int);
                final(self).pages() == p.update(page as int, (p[page as int].0, p[page as int].1 + indices@))
            }),
    {
        self.ensure_batch(page);
        let ghost p = self.pages();
        let mut k: usize = 0;
        while k < indices.len()
            invariant
                page < p.len(),
                self.batches@.len() == p.len(),
                k <= indices@.len(),
                self.pages() == p.update(
                    page as int,
                    (p[page as int].0, p[page as int].1 + indices@.subrange(0, k as int)),
                ),
            decreases indices@.len() - k,
        {
            let ghost before = self.pages();
            assert(before[page as int] == (p[page as int].0, p[page as int].1 + indices@.subrange(0, k as int)));
            let v = indices[k];
            self.batches[page].indices.push(v);
            assert(self.pages() =~= before.update(page as int, (before[page as int].0, before[page as int].1.push(v))));
            assert(indices@.subrange(0, k + 1) =~= indices@.subrange(0, k as int).push(v));
            assert(p[page as int].1 + indices@.subrange(0, k + 1) =~= (p[page as int].1 + indices@.subrange(0, k as int)).push(v));
            k += 1;
            assert(self.pages() =~= p.update(
                page as int,
                (p[page as int].0, p[page as int].1 + indices@.subrange(0, k as int)),
            ));
        }
        assert(indices@.subrange(0, indices@.len() as int) =~= indices@);
    }

    fn add_vertex(&mut self, vertex: V, page: usize)
        requires
            page < usize::MAX,
        ensures
            ({
                let p = padded(old(self).pages(), page as int);
                final(self).pages() == p.update(page as int, (p[page as int].0.push(vertex), p[page as int].1))
            }),
    {
        self.ensure_batch(page);
        let ghost p = self.pages();
        assert(self.batches@.len() == p.len());
        self.batches[page].vertices.push(vertex);
        assert(self.pages() =~= p.update(page as int, (p[page as int].0.push(vertex), p[page as int].1)));
    }

    fn add_index(&mut self, index: i32, page: usize)
        requires
            page < usize::MAX,
        ensures
            ({
                let p = padded(old(self).pages(), page as int);
                final(self).pages() == p.update(page as int, (p[page as int].0, p[page as int].1.push(index)))
            }),
    {
        self.ensure_batch(page);
        let ghost p = self.pages();
        assert(self.batches@.len() == p.len());
        self.batches[page].indices.push(index);
        assert(self.pages() =~= p.update(page as int, (p[page as int].0, p[page as int].1.push(index))));
    }

    /// The number of vertices on page `page`, creating the page if missing.
    fn num_vertices(&mut self, page: usize) -> (r: i32)
        requires
            page < usize::MAX,
            page < old(self).pages().len() ==> old(self).pages()[page as int].0.len() <= i32::MAX,
        ensures
            final(self).pages() == padded(old(self).pages(), page as int),
            r == padded(old(self).pages(), page as int)[page as int].0.len(),
    {
        self.ensure_batch(page);
        assert(self.batches@.len() == self.pages().len());
        assert(self.pages()[page as int].0 == self.batches@[page as int].vertices@);
        self.batches[page].vertices.len() as i32
    }

    /// Adds a quad (its four corners in drawing order) to page `page` as two
    /// triangles: corners 0, 1, 2 and corners 0, 2, 3.
    pub fn add_quad(&mut self, quad: [V; 4], page: usize)
        requires
            indices_valid(old(self).pages()),
            page < usize::MAX,
            page < old(self).pages().len() ==> old(self).pages()[page as int].0.len() + 4 <= i32::MAX,
        ensures
            final(self).pages() == pages_with_quad(old(self).pages(), page as int, quad@),
            indices_valid(final(self).pages()),
    {
        let ghost p = padded(self.pages(), page as int);
        let idx = self.num_vertices(page);
        let indices: [i32; 6] = [idx + 0, idx + 1, idx + 2, idx + 0, idx + 2, idx + 3];
        assert(indices@ =~= quad_indices(idx as int));
        self.add_indices(indices.as_slice(), page);
        self.add_vertices(quad.as_slice(), page);
        assert(self.pages() =~= pages_with_quad(old(self).pages(), page as int, quad@));
        assert forall|q: int, k: int|
            0 <= q < self.pages().len() && 0 <= k < self.pages()[q].1.len() implies 0
            <= #[trigger] self.pages()[q].1[k] < self.pages()[q].0.len() by {
            if q != page {
                if q < old(self).pages().len() {
                    assert(self.pages()[q] == old(self).pages()[q]);
                }
            } else {
                if k < p[q].1.len() {
                    if q < old(self).pages().len() {
                        assert(p[q] == old(self).pages()[q]);
                    }
                }
            }
        }
    }
}


impl<V> DrawBatch<V> {
    /// How many pages there are.
    pub fn num_pages(&self) -> (r: usize)
        ensures
            r == self.pages().len(),
    {
        self.batches.len()
    }

    /// The vertices of page `page`.
    pub fn page_vertices(&self, page: usize) -> (r: &[V])
        requires
            page < self.pages().len(),
        ensures
            r@ == self.pages()[page as int].0,
    {
        self.batches[page].vertices.as_slice()
    }

    /// The indices of page `page`.
    pub fn page_indices(&self, page: usize) -> (r: &[i32])
        requires
            page < self.pages().len(),
        ensures
            r@ == self.pages()[page as int].1,
    {
        self.batches[page].indices.as_slice()
    }
}

} // verus!
