use vstd::prelude::*;

verus! {

/// A half-open byte range `[offset, offset + size)` inside one linear buffer.
#[derive(Clone, Copy, Debug, PartialEq, Eq, Structural)]
pub struct BufferRegion {
    pub offset: usize,
    pub size: usize,
}

impl BufferRegion {
    pub open spec fn end_spec(self) -> int {
        self.offset + self.size
    }

    /// The end of the range is representable as a `usize`.
    pub open spec fn fits(self) -> bool {
        self.offset + self.size <= usize::MAX
    }

    /// Byte `b` lies inside the range.
    pub open spec fn holds(self, b: int) -> bool {
        self.offset <= b < self.offset + self.size
    }

    pub fn is_empty(&self) -> (r: bool)
        ensures
            r == (self.size == 0),
    {
        self.size == 0
    }

    pub fn end(&self) -> (r: usize)
        requires
            self.fits(),
        ensures
            r == self.end_spec(),
    {
        self.offset + self.size
    }
}

/// Two ranges share no byte.
pub open spec fn disjoint(a: BufferRegion, b: BufferRegion) -> bool {
    a.size == 0 || b.size == 0 || a.end_spec() <= b.offset || b.end_spec() <= a.offset
}

pub open spec fn all_fit(rs: Seq<BufferRegion>) -> bool {
    forall|i: int| 0 <= i < rs.len() ==> (#[trigger] rs[i]).fits()
}

pub open spec fn pairwise_disjoint(rs: Seq<BufferRegion>) -> bool {
    forall|i: int, j: int|
        #![trigger rs[i], rs[j]]
        0 <= i < rs.len() && 0 <= j < rs.len() && i != j ==> disjoint(rs[i], rs[j])
}

/// No range of `a` shares a byte with a range of `b`.
pub open spec fn lists_disjoint(a: Seq<BufferRegion>, b: Seq<BufferRegion>) -> bool {
    forall|i: int, j: int|
        #![trigger a[i], b[j]]
        0 <= i < a.len() && 0 <= j < b.len() ==> disjoint(a[i], b[j])
}

/// `r` shares no byte with any range of `rs`.
pub open spec fn clear_of(rs: Seq<BufferRegion>, r: BufferRegion) -> bool {
    forall|i: int| 0 <= i < rs.len() ==> disjoint(#[trigger] rs[i], r)
}

/// The set of bytes that the ranges of `rs` cover.
pub open spec fn bytes_of(rs: Seq<BufferRegion>) -> Set<int> {
    Set::new(|b: int| exists|i: int| 0 <= i < rs.len() && (#[trigger] rs[i]).holds(b))
}

/// Some free range can hold `size` bytes.
pub open spec fn has_fit(free: Seq<BufferRegion>, size: usize) -> bool {
    exists|i: int| 0 <= i < free.len() && (#[trigger] free[i]).size >= size
}

/// Index `b` is the best fit for `size` in `free`: among the ranges that can hold
/// `size` bytes it has the least size, and no earlier range has that size.
pub open spec fn is_best_fit(free: Seq<BufferRegion>, size: usize, b: int) -> bool {
    &&& 0 <= b < free.len()
    &&& free[b].size >= size
    &&& forall|j: int|
        0 <= j < free.len() && (#[trigger] free[j]).size >= size ==> free[j].size >= free[b].size
    &&& forall|j: int| 0 <= j < b && (#[trigger] free[j]).size >= size ==> free[j].size > free[b].size
}

/// What is left of the used range `u` once the bytes of `r` are taken out of it,
/// in address order.
pub open spec fn cut(u: BufferRegion, r: BufferRegion) -> Seq<BufferRegion> {
    if disjoint(u, r) {
        seq![u]
    } else {
        let before = if r.offset > u.offset {
            seq![BufferRegion { offset: u.offset, size: (r.offset - u.offset) as usize }]
        } else {
            Seq::empty()
        };
        let after = if r.end_spec() < u.end_spec() {
            seq![
                BufferRegion {
                    offset: r.end_spec() as usize,
                    size: (u.end_spec() - r.end_spec()) as usize,
                },
            ]
        } else {
            Seq::empty()
        };
        before + after
    }
}

/// The first `n` used ranges with the bytes of `r` taken out, in list order.
pub open spec fn cut_all(us: Seq<BufferRegion>, r: BufferRegion, n: int) -> Seq<BufferRegion>
    decreases n,
{
    if n <= 0 {
        Seq::empty()
    } else {
        cut_all(us, r, n - 1) + cut(us[n - 1], r)
    }
}

/// A list that is sorted by offset and in which no range ends where the next begins.
pub open spec fn merged(rs: Seq<BufferRegion>) -> bool {
    forall|i: int|
        0 <= i < rs.len() - 1 ==> (#[trigger] rs[i]).offset <= rs[i + 1].offset
            && rs[i].end_spec() != rs[i + 1].offset
}

/// The bytes of one range.
pub open spec fn region_bytes(r: BufferRegion) -> Set<int> {
    Set::new(|b: int| r.holds(b))
}

pub open spec fn sorted_by_offset(rs: Seq<BufferRegion>) -> bool {
    forall|i: int, j: int|
        #![trigger rs[i], rs[j]]
        0 <= i < j < rs.len() ==> rs[i].offset <= rs[j].offset
}

/// Every range of `a` occurs in `b`.
pub open spec fn members_of(a: Seq<BufferRegion>, b: Seq<BufferRegion>) -> bool {
    exists|f: spec_fn(int) -> int| #[trigger] maps_into(a, b, f)
}

/// `f` sends each position of `a` to a position of `b` that holds the same range.
pub open spec fn maps_into(a: Seq<BufferRegion>, b: Seq<BufferRegion>, f: spec_fn(int) -> int) -> bool {
    forall|i: int| #![trigger f(i)] 0 <= i < a.len() ==> 0 <= f(i) < b.len() && b[f(i)] == a[i]
}

proof fn lemma_bytes_push(rs: Seq<BufferRegion>, x: BufferRegion)
    ensures
        bytes_of(rs.push(x)) == bytes_of(rs).union(region_bytes(x)),
{
    let p = rs.push(x);
    assert forall|b: int| #[trigger]
        bytes_of(p).contains(b) <==> bytes_of(rs).union(region_bytes(x)).contains(b) by {
        if bytes_of(p).contains(b) {
            let i = choose|i: int| 0 <= i < p.len() && (#[trigger] p[i]).holds(b);
            if i < rs.len() {
                assert(rs[i] == p[i]);
            }
        }
        if bytes_of(rs).contains(b) {
            let i = choose|i: int| 0 <= i < rs.len() && (#[trigger] rs[i]).holds(b);
            assert(p[i] == rs[i]);
        }
        if x.holds(b) {
            assert(p[rs.len() as int] == x);
        }
    }
    assert(bytes_of(p) =~= bytes_of(rs).union(region_bytes(x)));
}

proof fn lemma_bytes_members(a: Seq<BufferRegion>, b: Seq<BufferRegion>)
    requires
        members_of(a, b),
        members_of(b, a),
    ensures
        bytes_of(a) == bytes_of(b),
{
    let f = choose|f: spec_fn(int) -> int| maps_into(a, b, f);
    let g = choose|g: spec_fn(int) -> int| maps_into(b, a, g);
    assert forall|w: int| #[trigger] bytes_of(a).contains(w) <==> bytes_of(b).contains(w) by {
        if bytes_of(a).contains(w) {
            let i = choose|i: int| 0 <= i < a.len() && (#[trigger] a[i]).holds(w);
            assert(b[f(i)].holds(w));
        }
        if bytes_of(b).contains(w) {
            let i = choose|i: int| 0 <= i < b.len() && (#[trigger] b[i]).holds(w);
            assert(a[g(i)].holds(w));
        }
    }
    assert(bytes_of(a) =~= bytes_of(b));
}

/// Two ranges with no byte in common are disjoint.
proof fn lemma_disjoint_from_bytes(a: BufferRegion, b: BufferRegion)
    requires
        forall|w: int| !(a.holds(w) && b.holds(w)),
    ensures
        disjoint(a, b),
{
    if !disjoint(a, b) {
        let w: int = if a.offset >= b.offset {
            a.offset as int
        } else {
            b.offset as int
        };
        assert(a.holds(w) && b.holds(w));
    }
}

proof fn lemma_insert_sorted(prev: Seq<BufferRegion>, x: BufferRegion, p: int)
    requires
        0 <= p <= prev.len(),
        sorted_by_offset(prev),
        forall|q: int| 0 <= q < p ==> (#[trigger] prev[q]).offset <= x.offset,
        p < prev.len() ==> prev[p].offset > x.offset,
    ensures
        sorted_by_offset(prev.insert(p, x)),
{
    let o = prev.insert(p, x);
    assert forall|a: int, b: int| 0 <= a < b < o.len() implies (#[trigger] o[a]).offset <= (
    #[trigger] o[b]).offset by {
        if b == p {
        } else if a == p {
            if b - 1 > p {
                assert(prev[p].offset <= prev[b - 1].offset);
            }
        } else if a < p && b > p {
            assert(prev[b - 1] == o[b]);
        } else {
        }
    }
}

proof fn lemma_insert_members(prev: Seq<BufferRegion>, v: Seq<BufferRegion>, k: int, p: int)
    requires
        0 <= p <= prev.len(),
        0 <= k < v.len(),
        members_of(prev, v.subrange(0, k)),
        members_of(v.subrange(0, k), prev),
    ensures
        members_of(prev.insert(p, v[k]), v.subrange(0, k + 1)),
        members_of(v.subrange(0, k + 1), prev.insert(p, v[k])),
{
    let o = prev.insert(p, v[k]);
    let w = v.subrange(0, k);
    let w1 = v.subrange(0, k + 1);
    let f0 = choose|f: spec_fn(int) -> int| maps_into(prev, w, f);
    let g0 = choose|f: spec_fn(int) -> int| maps_into(w, prev, f);
    let f1 = |m: int|
        if m < p {
            f0(m)
        } else if m == p {
            k
        } else {
            f0(m - 1)
        };
    let g1 = |j: int|
        if j == k {
            p
        } else if g0(j) < p {
            g0(j)
        } else {
            g0(j) + 1
        };
    assert forall|m: int| 0 <= m < o.len() implies 0 <= #[trigger] f1(m) < w1.len() && w1[f1(m)] == o[m] by {
        if m < p {
            assert(o[m] == prev[m]);
            assert(f1(m) == f0(m));
        } else if m > p {
            assert(o[m] == prev[m - 1]);
            assert(f1(m) == f0(m - 1));
        }
    }
    assert(maps_into(o, w1, f1));
    assert forall|j: int| 0 <= j < w1.len() implies 0 <= #[trigger] g1(j) < o.len() && o[g1(j)] == w1[j] by {
        if j < k {
            assert(w1[j] == w[j]);
            assert(0 <= g0(j) < prev.len());
        }
    }
    assert(maps_into(w1, o, g1));
}

proof fn lemma_insert_disjoint(prev: Seq<BufferRegion>, v: Seq<BufferRegion>, k: int, p: int)
    requires
        0 <= p <= prev.len(),
        0 <= k < v.len(),
        pairwise_disjoint(v),
        pairwise_disjoint(prev),
        members_of(prev, v.subrange(0, k)),
    ensures
        pairwise_disjoint(prev.insert(p, v[k])),
{
    let w = v.subrange(0, k);
    let f0 = choose|f: spec_fn(int) -> int| maps_into(prev, w, f);
    let o = prev.insert(p, v[k]);
    assert forall|a: int, b: int| 0 <= a < o.len() && 0 <= b < o.len() && a != b implies disjoint(
        #[trigger] o[a],
        #[trigger] o[b],
    ) by {
        if a == p {
            let bb = if b < p { b } else { b - 1 };
            assert(o[b] == prev[bb]);
            let j = f0(bb);
            assert(w[j] == v[j]);
            assert(disjoint(v[j], v[k]));
        } else if b == p {
            let aa = if a < p { a } else { a - 1 };
            assert(o[a] == prev[aa]);
            let j = f0(aa);
            assert(w[j] == v[j]);
            assert(disjoint(v[j], v[k]));
        } else {
            let aa = if a < p { a } else { a - 1 };
            let bb = if b < p { b } else { b - 1 };
            assert(o[a] == prev[aa] && o[b] == prev[bb]);
        }
    }
}

/// The ranges of `v` ordered by offset; ranges with equal offsets keep their order.
fn sort_by_offset(v: &Vec<BufferRegion>) -> (r: Vec<BufferRegion>)
    requires
        pairwise_disjoint(v@),
    ensures
        r@.len() == v@.len(),
        sorted_by_offset(r@),
        pairwise_disjoint(r@),
        members_of(r@, v@),
        members_of(v@, r@),
{
    let mut out: Vec<BufferRegion> = Vec::new();
    let n = v.len();
    let mut k: usize = 0;
    proof {
        let id = |i: int| i;
        assert(maps_into(out@, v@.subrange(0, k as int), id));
        assert(maps_into(v@.subrange(0, k as int), out@, id));
    }
    while k < n
        invariant
            n == v@.len(),
            pairwise_disjoint(v@),
            0 <= k <= n,
            out@.len() == k,
            sorted_by_offset(out@),
            pairwise_disjoint(out@),
            members_of(out@, v@.subrange(0, k as int)),
            members_of(v@.subrange(0, k as int), out@),
        decreases n - k,
    {
        let x = v[k];
        let mut p: usize = 0;
        while p < out.len() && out[p].offset <= x.offset
            invariant
                0 <= p <= out@.len(),
                forall|q: int| 0 <= q < p ==> (#[trigger] out@[q]).offset <= x.offset,
            decreases out@.len() - p,
        {
            p += 1;
        }
        let ghost prev = out@;
        out.insert(p, x);
        proof {
            lemma_insert_sorted(prev, x, p as int);
            lemma_insert_members(prev, v@, k as int, p as int);
            lemma_insert_disjoint(prev, v@, k as int, p as int);
        }
        k += 1;
    }
    proof {
        assert(v@.subrange(0, n as int) == v@);
    }
    out
}

/// Merges neighbouring ranges of an offset-sorted list where one ends at the
/// next one's offset.
fn merge_sorted(s: &Vec<BufferRegion>, Ghost(other): Ghost<Seq<BufferRegion>>) -> (r: Vec<
    BufferRegion,
>)
    requires
        sorted_by_offset(s@),
        pairwise_disjoint(s@),
        all_fit(s@),
        lists_disjoint(s@, other),
    ensures
        merged(r@),
        pairwise_disjoint(r@),
        all_fit(r@),
        lists_disjoint(r@, other),
        bytes_of(r@) == bytes_of(s@),
{
    let mut out: Vec<BufferRegion> = Vec::new();
    let n = s.len();
    let mut k: usize = 0;
    proof {
        assert(bytes_of(out@) =~= bytes_of(s@.subrange(0, 0)));
    }
    while k < n
        invariant
            n == s@.len(),
            sorted_by_offset(s@),
            pairwise_disjoint(s@),
            all_fit(s@),
            lists_disjoint(s@, other),
            0 <= k <= n,
            merged(out@),
            pairwise_disjoint(out@),
            all_fit(out@),
            lists_disjoint(out@, other),
            bytes_of(out@) == bytes_of(s@.subrange(0, k as int)),
            k < n ==> forall|m: int| 0 <= m < out@.len() ==> (#[trigger] out@[m]).offset
                <= s@[k as int].offset,
        decreases n - k,
    {
        let r = s[k];
        let ghost prev = out@;
        proof {
            assert(s@.subrange(0, k + 1) == s@.subrange(0, k as int).push(r));
            lemma_bytes_push(s@.subrange(0, k as int), r);
            // `r` shares no byte with what is already merged.
            assert forall|m: int| 0 <= m < prev.len() implies disjoint(#[trigger] prev[m], r) by {
                assert forall|w: int| !(prev[m].holds(w) && r.holds(w)) by {
                    if prev[m].holds(w) && r.holds(w) {
                        assert(bytes_of(prev).contains(w));
                        let sub = s@.subrange(0, k as int);
                        assert(bytes_of(sub).contains(w));
                        let j = choose|j: int| 0 <= j < sub.len() && (#[trigger] sub[j]).holds(w);
                        assert(sub[j] == s@[j]);
                        assert(disjoint(s@[j], s@[k as int]));
                    }
                }
                lemma_disjoint_from_bytes(prev[m], r);
            }
        }
        let len = out.len();
        if len > 0 && out[len - 1].end() == r.offset {
            let last = out[len - 1];
            let grown = BufferRegion { offset: last.offset, size: last.size + r.size };
            out.set(len - 1, grown);
            proof {
                let o = out@;
                let dl = prev.drop_last();
                assert(prev == dl.push(last));
                assert(o == dl.push(grown));
                lemma_bytes_push(dl, last);
                lemma_bytes_push(dl, grown);
                assert(region_bytes(grown) =~= region_bytes(last).union(region_bytes(r)));
                assert(bytes_of(o) =~= bytes_of(prev).union(region_bytes(r)));
                assert forall|a: int, b: int|
                    0 <= a < o.len() && 0 <= b < o.len() && a != b implies disjoint(
                    #[trigger] o[a],
                    #[trigger] o[b],
                ) by {
                    if a == len - 1 {
                        assert(disjoint(prev[b], r));
                        assert(disjoint(prev[b], prev[a]));
                    } else if b == len - 1 {
                        assert(disjoint(prev[a], r));
                        assert(disjoint(prev[a], prev[b]));
                    } else {
                        assert(o[a] == prev[a] && o[b] == prev[b]);
                    }
                }
                assert forall|a: int, b: int|
                    0 <= a < o.len() && 0 <= b < other.len() implies disjoint(
                    #[trigger] o[a],
                    #[trigger] other[b],
                ) by {
                    if a == len - 1 {
                        assert(disjoint(prev[a], other[b]));
                        assert(disjoint(s@[k as int], other[b]));
                    } else {
                        assert(o[a] == prev[a]);
                    }
                }
                assert forall|a: int| 0 <= a < o.len() - 1 implies (#[trigger] o[a]).offset <= o[a
                    + 1].offset && o[a].end_spec() != o[a + 1].offset by {
                    assert(o[a] == prev[a]);
                    if a + 1 < len - 1 {
                        assert(o[a + 1] == prev[a + 1]);
                    }
                }
                assert forall|m: int| 0 <= m < o.len() implies (#[trigger] o[m]).fits() by {
                    if m < len - 1 {
                        assert(o[m] == prev[m]);
                    }
                }
                if k + 1 < n {
                    assert forall|m: int| 0 <= m < o.len() implies (#[trigger] o[m]).offset
                        <= s@[k + 1].offset by {
                        assert(s@[k as int].offset <= s@[k + 1].offset);
                        if m < len - 1 {
                            assert(o[m] == prev[m]);
                        }
                    }
                }
            }
        } else {
            out.push(r);
            proof {
                let o = out@;
                lemma_bytes_push(prev, r);
                assert forall|a: int, b: int|
                    0 <= a < o.len() && 0 <= b < o.len() && a != b implies disjoint(
                    #[trigger] o[a],
                    #[trigger] o[b],
                ) by {
                    if a == len {
                        assert(disjoint(prev[b], r));
                    } else if b == len {
                        assert(disjoint(prev[a], r));
                    } else {
                        assert(o[a] == prev[a] && o[b] == prev[b]);
                    }
                }
                assert forall|a: int, b: int|
                    0 <= a < o.len() && 0 <= b < other.len() implies disjoint(
                    #[trigger] o[a],
                    #[trigger] other[b],
                ) by {
                    if a == len {
                        assert(disjoint(s@[k as int], other[b]));
                    } else {
                        assert(o[a] == prev[a]);
                    }
                }
                assert forall|a: int| 0 <= a < o.len() - 1 implies (#[trigger] o[a]).offset <= o[a
                    + 1].offset && o[a].end_spec() != o[a + 1].offset by {
                    assert(o[a] == prev[a]);
                    if a + 1 < len {
                        assert(o[a + 1] == prev[a + 1]);
                    }
                }
                assert forall|m: int| 0 <= m < o.len() implies (#[trigger] o[m]).fits() by {
                    if m < len {
                        assert(o[m] == prev[m]);
                    }
                }
                if k + 1 < n {
                    assert forall|m: int| 0 <= m < o.len() implies (#[trigger] o[m]).offset
                        <= s@[k + 1].offset by {
                        assert(s@[k as int].offset <= s@[k + 1].offset);
                        if m < len {
                            assert(o[m] == prev[m]);
                        }
                    }
                }
            }
        }
        k += 1;
    }
    proof {
        assert(s@.subrange(0, n as int) == s@);
    }
    out
}

/// Sorts `rs` by offset and merges the ranges that touch.
fn coalesce_regions(rs: &Vec<BufferRegion>, Ghost(other): Ghost<Seq<BufferRegion>>) -> (r: Vec<
    BufferRegion,
>)
    requires
        pairwise_disjoint(rs@),
        all_fit(rs@),
        lists_disjoint(rs@, other),
    ensures
        merged(r@),
        pairwise_disjoint(r@),
        all_fit(r@),
        lists_disjoint(r@, other),
        bytes_of(r@) == bytes_of(rs@),
{
    let sorted = sort_by_offset(rs);
    proof {
        lemma_bytes_members(sorted@, rs@);
        let f = choose|f: spec_fn(int) -> int| maps_into(sorted@, rs@, f);
        assert forall|m: int| 0 <= m < sorted@.len() implies (#[trigger] sorted@[m]).fits() by {
            assert(rs@[f(m)] == sorted@[m]);
        }
        assert forall|a: int, b: int|
            0 <= a < sorted@.len() && 0 <= b < other.len() implies disjoint(
            #[trigger] sorted@[a],
            #[trigger] other[b],
        ) by {
            assert(rs@[f(a)] == sorted@[a]);
        }
    }
    merge_sorted(&sorted, Ghost(other))
}

#[derive(Clone, Copy, Debug, PartialEq, Eq, Structural)]
pub enum AllocatorError {
    /// No free range is large enough for the request.
    OutOfSpace,
}

/// Free-list allocator over the byte ranges of one linear buffer.
#[derive(Debug)]
pub struct BufferManager {
    pub free_regions: Vec<BufferRegion>,
    pub used_regions: Vec<BufferRegion>,
}

/// `new` is `old` after `allocate(size)` returned `res`.
pub open spec fn allocated(
    old: BufferManager,
    new: BufferManager,
    size: usize,
    res: Result<usize, AllocatorError>,
) -> bool {
    let free = old.free_regions@;
    match res {
        Err(e) => {
            &&& e == AllocatorError::OutOfSpace
            &&& !has_fit(free, size)
            &&& new.free_regions@ == free
            &&& new.used_regions@ == old.used_regions@
        },
        Ok(offset) => exists|b: int|
            {
                &&& is_best_fit(free, size, b)
                &&& offset == free[b].offset
                &&& new.used_regions@ == old.used_regions@.push(
                    BufferRegion { offset: free[b].offset, size },
                )
                &&& new.free_regions@ == if free[b].size > size {
                    free.remove(b).push(
                        BufferRegion {
                            offset: (free[b].offset + size) as usize,
                            size: (free[b].size - size) as usize,
                        },
                    )
                } else {
                    free.remove(b)
                }
            },
    }
}

/// `new` is `old` after `release(region)`.
pub open spec fn released(old: BufferManager, new: BufferManager, region: BufferRegion) -> bool {
    &&& new.used_regions@ == cut_all(old.used_regions@, region, old.used_regions@.len() as int)
    &&& new.free_regions@ == old.free_regions@.push(region)
}

/// `new` is `old` with both lists coalesced.
pub open spec fn coalesced(old: BufferManager, new: BufferManager) -> bool {
    &&& merged(new.free_regions@)
    &&& merged(new.used_regions@)
    &&& bytes_of(new.free_regions@) == bytes_of(old.free_regions@)
    &&& bytes_of(new.used_regions@) == bytes_of(old.used_regions@)
}

impl BufferManager {
    /// Every range ends inside the address space, and no two tracked ranges,
    /// free or used, share a byte.
    pub open spec fn wf(&self) -> bool {
        &&& all_fit(self.free_regions@)
        &&& all_fit(self.used_regions@)
        &&& pairwise_disjoint(self.free_regions@)
        &&& pairwise_disjoint(self.used_regions@)
        &&& lists_disjoint(self.free_regions@, self.used_regions@)
    }

    pub fn new() -> (r: Self)
        ensures
            r.wf(),
            r.free_regions@.len() == 0,
            r.used_regions@.len() == 0,
    {
        Self { free_regions: Vec::new(), used_regions: Vec::new() }
    }

    pub fn clear(&mut self)
        ensures
            final(self).wf(),
            final(self).free_regions@.len() == 0,
            final(self).used_regions@.len() == 0,
    {
        self.free_regions = Vec::new();
        self.used_regions = Vec::new();
    }

    /// Registers `[offset, offset + size)` as free.
    pub fn add_free_region(&mut self, offset: usize, size: usize)
        requires
            old(self).wf(),
            offset + size <= usize::MAX,
            clear_of(old(self).free_regions@, BufferRegion { offset, size }),
            clear_of(old(self).used_regions@, BufferRegion { offset, size }),
        ensures
            final(self).wf(),
            final(self).free_regions@ == old(self).free_regions@.push(BufferRegion { offset, size }),
            final(self).used_regions@ == old(self).used_regions@,
    {
        self.free_regions.push(BufferRegion { offset, size });
    }

    /// Registers `[offset, offset + size)` as used.
    pub fn add_used_region(&mut self, offset: usize, size: usize)
        requires
            old(self).wf(),
            offset + size <= usize::MAX,
            clear_of(old(self).free_regions@, BufferRegion { offset, size }),
            clear_of(old(self).used_regions@, BufferRegion { offset, size }),
        ensures
            final(self).wf(),
            final(self).used_regions@ == old(self).used_regions@.push(BufferRegion { offset, size }),
            final(self).free_regions@ == old(self).free_regions@,
    {
        self.used_regions.push(BufferRegion { offset, size });
    }
    /// Best-fit allocation of `size` bytes: the first free range of exactly
    /// `size` bytes, else the first of the smallest ranges that are larger. What
    /// the chosen range has beyond `size` stays free.
    pub fn use_free_region(&mut self, size: usize) -> (res: Result<usize, AllocatorError>)
        requires
            old(self).wf(),
        ensures
            final(self).wf(),
            allocated(*old(self), *final(self), size, res),
            res is Err <==> !has_fit(old(self).free_regions@, size),
    {
        let ghost free = self.free_regions@;
        let mut best_fit: Option<usize> = None;
        let mut best_fit_size: usize = 0;
        let mut exact = false;
        let n = self.free_regions.len();
        let mut i: usize = 0;
        while i < n && !exact
            invariant
                n == free.len(),
                free == self.free_regions@,
                0 <= i <= n,
                exact ==> best_fit is Some && best_fit_size == size,
                !exact ==> forall|j: int| 0 <= j < i ==> (#[trigger] free[j]).size != size,
                best_fit is None ==> forall|j: int| 0 <= j < i ==> (#[trigger] free[j]).size < size,
                best_fit matches Some(b) ==> {
                    &&& b < i
                    &&& best_fit_size == free[b as int].size
                    &&& free[b as int].size >= size
                    &&& forall|j: int|
                        0 <= j < i && (#[trigger] free[j]).size >= size ==> free[j].size
                            >= best_fit_size
                    &&& forall|j: int|
                        0 <= j < b && (#[trigger] free[j]).size >= size ==> free[j].size
                            > best_fit_size
                },
            decreases n - i,
        {
            let region = self.free_regions[i];
            if region.size >= size {
                if region.size == size {
                    best_fit = Some(i);
                    best_fit_size = region.size;
                    exact = true;
                } else if best_fit.is_none() {
                    best_fit = Some(i);
                    best_fit_size = region.size;
                } else if region.size < best_fit_size {
                    best_fit = Some(i);
                    best_fit_size = region.size;
                }
            }
            i += 1;
        }
        let b = match best_fit {
            None => {
                return Err(AllocatorError::OutOfSpace);
            },
            Some(b) => b,
        };
        assert(is_best_fit(free, size, b as int));
        let region = self.free_regions[b];
        let ghost used = self.used_regions@;
        let piece = BufferRegion { offset: region.offset, size };
        if region.size > size {
            let rest = BufferRegion { offset: region.offset + size, size: region.size - size };
            self.free_regions.remove(b);
            self.free_regions.push(rest);
            assert(self.free_regions@ == free.remove(b as int).push(rest));
        } else {
            self.free_regions.remove(b);
        }
        self.used_regions.push(piece);
        proof {
            let nf = self.free_regions@;
            let nu = self.used_regions@;
            assert forall|k: int, l: int|
                0 <= k < nf.len() && 0 <= l < nf.len() && k != l implies disjoint(
                #[trigger] nf[k],
                #[trigger] nf[l],
            ) by {
                let sk = if k < b { k } else { k + 1 };
                let sl = if l < b { l } else { l + 1 };
                if k < free.len() - 1 && l < free.len() - 1 {
                    assert(nf[k] == free[sk] && nf[l] == free[sl]);
                } else if k < free.len() - 1 {
                    assert(nf[k] == free[sk]);
                    assert(disjoint(free[sk], free[b as int]));
                } else {
                    assert(nf[l] == free[sl]);
                    assert(disjoint(free[sl], free[b as int]));
                }
            }
            assert forall|k: int, l: int|
                0 <= k < nf.len() && 0 <= l < nu.len() implies disjoint(
                #[trigger] nf[k],
                #[trigger] nu[l],
            ) by {
                let sk = if k < b { k } else { k + 1 };
                if l < used.len() {
                    assert(nu[l] == used[l]);
                    assert(disjoint(free[b as int], used[l]));
                    if k < free.len() - 1 {
                        assert(nf[k] == free[sk]);
                    }
                } else {
                    assert(nu[l] == piece);
                    if k < free.len() - 1 {
                        assert(nf[k] == free[sk]);
                        assert(disjoint(free[sk], free[b as int]));
                    }
                }
            }
            assert forall|k: int, l: int|
                0 <= k < nu.len() && 0 <= l < nu.len() && k != l implies disjoint(
                #[trigger] nu[k],
                #[trigger] nu[l],
            ) by {
                if k < used.len() && l < used.len() {
                } else if k < used.len() {
                    assert(disjoint(free[b as int], used[k]));
                } else {
                    assert(disjoint(free[b as int], used[l]));
                }
            }
            assert(all_fit(nf)) by {
                assert forall|k: int| 0 <= k < nf.len() implies (#[trigger] nf[k]).fits() by {
                    if k < free.len() - 1 {
                        let sk = if k < b { k } else { k + 1 };
                        assert(nf[k] == free[sk]);
                    }
                }
            }
            assert(all_fit(nu)) by {
                assert forall|k: int| 0 <= k < nu.len() implies (#[trigger] nu[k]).fits() by {
                    if k < used.len() {
                        assert(nu[k] == used[k]);
                    }
                }
            }
        }
        Ok(region.offset)
    }

    /// Moves the used range at `index` to the free list.
    pub fn free_used_region(&mut self, index: usize)
        requires
            old(self).wf(),
            index < old(self).used_regions@.len(),
        ensures
            final(self).wf(),
            final(self).used_regions@ == old(self).used_regions@.remove(index as int),
            final(self).free_regions@ == old(self).free_regions@.push(
                old(self).used_regions@[index as int],
            ),
    {
        let ghost used = self.used_regions@;
        let ghost free = self.free_regions@;
        let used_region = self.used_regions.remove(index);
        self.free_regions.push(used_region);
        proof {
            let nf = self.free_regions@;
            let nu = self.used_regions@;
            assert forall|k: int| 0 <= k < nu.len() implies #[trigger] nu[k] == used[if k < index {
                k
            } else {
                k + 1
            }] by {}
            assert forall|k: int, l: int|
                0 <= k < nu.len() && 0 <= l < nu.len() && k != l implies disjoint(
                #[trigger] nu[k],
                #[trigger] nu[l],
            ) by {
                let sk = if k < index { k } else { k + 1 };
                let sl = if l < index { l } else { l + 1 };
                assert(nu[k] == used[sk] && nu[l] == used[sl]);
            }
            assert forall|k: int, l: int|
                0 <= k < nf.len() && 0 <= l < nu.len() implies disjoint(
                #[trigger] nf[k],
                #[trigger] nu[l],
            ) by {
                let sl = if l < index { l } else { l + 1 };
                assert(nu[l] == used[sl]);
                if k < free.len() {
                    assert(nf[k] == free[k]);
                } else {
                    assert(disjoint(used[sl], used[index as int]));
                }
            }
            assert forall|k: int, l: int|
                0 <= k < nf.len() && 0 <= l < nf.len() && k != l implies disjoint(
                #[trigger] nf[k],
                #[trigger] nf[l],
            ) by {
                if k < free.len() && l < free.len() {
                } else if k < free.len() {
                    assert(disjoint(free[k], used[index as int]));
                } else {
                    assert(disjoint(free[l], used[index as int]));
                }
            }
            assert(all_fit(nf)) by {
                assert forall|k: int| 0 <= k < nf.len() implies (#[trigger] nf[k]).fits() by {
                    if k < free.len() {
                        assert(nf[k] == free[k]);
                    }
                }
            }
        }
    }
    /// Releases the bytes of `region`: every used range that shares bytes with it
    /// is replaced by the parts of it before and after `region`, and `region`
    /// joins the free list.
    pub fn free_segment(&mut self, region: BufferRegion)
        requires
            old(self).wf(),
            region.fits(),
            clear_of(old(self).free_regions@, region),
        ensures
            final(self).wf(),
            released(*old(self), *final(self), region),
    {
        let ghost used = self.used_regions@;
        let ghost free = self.free_regions@;
        let region_end = region.end();
        let mut kept: Vec<BufferRegion> = Vec::new();
        let n = self.used_regions.len();
        let mut i: usize = 0;
        while i < n
            invariant
                n == used.len(),
                used == self.used_regions@,
                free == self.free_regions@,
                old(self).wf(),
                used == old(self).used_regions@,
                free == old(self).free_regions@,
                region.fits(),
                region_end == region.end_spec(),
                0 <= i <= n,
                kept@ == cut_all(used, region, i as int),
                all_fit(kept@),
                pairwise_disjoint(kept@),
                clear_of(kept@, region),
                forall|m: int, j: int|
                    #![trigger kept@[m], used[j]]
                    0 <= m < kept@.len() && i <= j < n ==> disjoint(kept@[m], used[j]),
                lists_disjoint(free, kept@),
            decreases n - i,
        {
            let u = self.used_regions[i];
            let ghost before_len = kept@.len();
            let overlapping = u.size != 0 && region.size != 0 && region.offset < u.end()
                && u.offset < region_end;
            if overlapping {
                if region.offset > u.offset {
                    kept.push(BufferRegion { offset: u.offset, size: region.offset - u.offset });
                }
                if region_end < u.end() {
                    kept.push(BufferRegion { offset: region_end, size: u.end() - region_end });
                }
            } else {
                kept.push(u);
            }
            proof {
                let k = kept@;
                assert(k == cut_all(used, region, i as int) + cut(u, region));
                assert forall|m: int| before_len <= m < k.len() implies {
                    &&& (#[trigger] k[m]).fits()
                    &&& k[m].offset >= u.offset
                    &&& k[m].end_spec() <= u.end_spec()
                    &&& disjoint(k[m], region)
                } by {}
                assert forall|m: int, j: int|
                    0 <= m < k.len() && i + 1 <= j < n implies disjoint(
                    #[trigger] k[m],
                    #[trigger] used[j],
                ) by {
                    assert(disjoint(used[i as int], used[j]));
                }
                assert forall|m: int, j: int|
                    0 <= m < free.len() && 0 <= j < k.len() implies disjoint(
                    #[trigger] free[m],
                    #[trigger] k[j],
                ) by {
                    assert(disjoint(free[m], used[i as int]));
                }
                assert forall|m: int, j: int|
                    0 <= m < k.len() && 0 <= j < k.len() && m != j implies disjoint(
                    #[trigger] k[m],
                    #[trigger] k[j],
                ) by {
                    if m < before_len && j >= before_len {
                        assert(disjoint(k[m], used[i as int]));
                    } else if j < before_len && m >= before_len {
                        assert(disjoint(k[j], used[i as int]));
                    }
                }
            }
            i += 1;
        }
        self.used_regions = kept;
        self.free_regions.push(region);
        proof {
            let nf = self.free_regions@;
            let nu = self.used_regions@;
            assert forall|m: int, j: int|
                0 <= m < nf.len() && 0 <= j < nf.len() && m != j implies disjoint(
                #[trigger] nf[m],
                #[trigger] nf[j],
            ) by {
                if m < free.len() && j < free.len() {
                    assert(nf[m] == free[m] && nf[j] == free[j]);
                } else if m < free.len() {
                    assert(nf[m] == free[m]);
                } else {
                    assert(nf[j] == free[j]);
                }
            }
            assert forall|m: int, j: int|
                0 <= m < nf.len() && 0 <= j < nu.len() implies disjoint(
                #[trigger] nf[m],
                #[trigger] nu[j],
            ) by {
                if m < free.len() {
                    assert(nf[m] == free[m]);
                } else {
                    assert(disjoint(nu[j], region));
                }
            }
            assert forall|m: int| 0 <= m < nf.len() implies (#[trigger] nf[m]).fits() by {
                if m < free.len() {
                    assert(nf[m] == free[m]);
                }
            }
        }
    }
    /// Sorts the free list by offset and merges free ranges that touch.
    pub fn merge_contiguous_free_regions(&mut self)
        requires
            old(self).wf(),
        ensures
            final(self).wf(),
            final(self).used_regions@ == old(self).used_regions@,
            merged(final(self).free_regions@),
            bytes_of(final(self).free_regions@) == bytes_of(old(self).free_regions@),
    {
        let merged_regions = coalesce_regions(&self.free_regions, Ghost(self.used_regions@));
        self.free_regions = merged_regions;
    }

    /// Sorts the used list by offset and merges used ranges that touch.
    pub fn merge_contiguous_used_regions(&mut self)
        requires
            old(self).wf(),
        ensures
            final(self).wf(),
            final(self).free_regions@ == old(self).free_regions@,
            merged(final(self).used_regions@),
            bytes_of(final(self).used_regions@) == bytes_of(old(self).used_regions@),
    {
        let ghost free = self.free_regions@;
        let ghost used = self.used_regions@;
        proof {
            assert forall|a: int, b: int|
                0 <= a < used.len() && 0 <= b < free.len() implies disjoint(
                #[trigger] used[a],
                #[trigger] free[b],
            ) by {
                assert(disjoint(free[b], used[a]));
            }
        }
        let merged_regions = coalesce_regions(&self.used_regions, Ghost(free));
        self.used_regions = merged_regions;
        proof {
            let nu = self.used_regions@;
            assert forall|a: int, b: int|
                0 <= a < free.len() && 0 <= b < nu.len() implies disjoint(
                #[trigger] free[a],
                #[trigger] nu[b],
            ) by {
                assert(disjoint(nu[b], free[a]));
            }
        }
    }

    /// Coalesces the free list and the used list.
    pub fn coalesce(&mut self)
        requires
            old(self).wf(),
        ensures
            final(self).wf(),
            coalesced(*old(self), *final(self)),
    {
        self.merge_contiguous_free_regions();
        self.merge_contiguous_used_regions();
    }
}

/// The free bytes before an allocation from `free[bi]` are the free bytes after
/// it together with the bytes handed out.
proof fn lemma_allocation_bytes(free: Seq<BufferRegion>, bi: int, size: usize, nf: Seq<BufferRegion>)
    requires
        0 <= bi < free.len(),
        free[bi].size >= size,
        free[bi].fits(),
        nf == if free[bi].size > size {
            free.remove(bi).push(
                BufferRegion {
                    offset: (free[bi].offset + size) as usize,
                    size: (free[bi].size - size) as usize,
                },
            )
        } else {
            free.remove(bi)
        },
    ensures
        bytes_of(free) == bytes_of(nf).union(region_bytes((BufferRegion { offset: free[bi].offset, size }))),
{
    let home = free[bi];
    let r = BufferRegion { offset: home.offset, size };
    let rest = BufferRegion {
        offset: (home.offset + size) as usize,
        size: (home.size - size) as usize,
    };
    assert forall|w: int| #[trigger] bytes_of(free).contains(w) <==> bytes_of(nf).union(
        region_bytes(r),
    ).contains(w) by {
        if bytes_of(free).contains(w) {
            let j = choose|j: int| 0 <= j < free.len() && (#[trigger] free[j]).holds(w);
            if j == bi {
                if !r.holds(w) {
                    assert(nf[nf.len() - 1] == rest);
                    assert(rest.holds(w));
                }
            } else if j < bi {
                assert(nf[j] == free[j]);
            } else {
                assert(nf[j - 1] == free[j]);
            }
        }
        if bytes_of(nf).contains(w) {
            let j = choose|j: int| 0 <= j < nf.len() && (#[trigger] nf[j]).holds(w);
            if home.size > size && j == nf.len() - 1 {
                assert(home.holds(w));
            } else if j < bi {
                assert(nf[j] == free[j]);
            } else {
                assert(nf[j] == free[j + 1]);
            }
        }
        if r.holds(w) {
            assert(home.holds(w));
        }
    }
    assert(bytes_of(free) =~= bytes_of(nf).union(region_bytes(r)));
}

/// Round trip: allocating `size` bytes, releasing the range that came back and
/// coalescing leaves exactly the free bytes that were there before the
/// allocation. The release in it is one that `free_segment` accepts.
pub proof fn lemma_allocate_release_round_trip(
    a: BufferManager,
    b: BufferManager,
    c: BufferManager,
    d: BufferManager,
    size: usize,
    offset: usize,
)
    requires
        a.wf(),
        b.wf(),
        allocated(a, b, size, Ok(offset)),
        released(b, c, (BufferRegion { offset, size })),
        coalesced(c, d),
    ensures
        (BufferRegion { offset, size }).fits(),
        clear_of(b.free_regions@, (BufferRegion { offset, size })),
        bytes_of(d.free_regions@) == bytes_of(a.free_regions@),
{
    let r = BufferRegion { offset, size };
    let free = a.free_regions@;
    let bi = choose|bi: int|
        ({
            &&& is_best_fit(free, size, bi)
            &&& offset == free[bi].offset
            &&& b.used_regions@ == a.used_regions@.push(BufferRegion { offset: free[bi].offset, size })
            &&& b.free_regions@ == if free[bi].size > size {
                free.remove(bi).push(
                    BufferRegion {
                        offset: (free[bi].offset + size) as usize,
                        size: (free[bi].size - size) as usize,
                    },
                )
            } else {
                free.remove(bi)
            }
        });
    let used = b.used_regions@;
    let nf = b.free_regions@;
    let home = free[bi];
    assert(used[used.len() - 1] == r);
    assert(home.fits());
    assert forall|i: int| 0 <= i < nf.len() implies disjoint(#[trigger] nf[i], r) by {
        assert(disjoint(nf[i], used[used.len() - 1]));
    }
    lemma_bytes_push(nf, r);
    lemma_allocation_bytes(free, bi, size, nf);
}

} // verus!
