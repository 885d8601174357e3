use vstd::prelude::*;

verus! {

/// Unit-quad corners in local space, 0..=1, wound counter-clockwise.
pub const UNIT_QUAD: [[u16; 2]; 4] = [[0, 0], [1, 0], [1, 1], [0, 1]];

/// Two triangles over [`UNIT_QUAD`]; every rect reuses this index list.
pub const UNIT_QUAD_INDICES: [u16; 6] = [0, 1, 2, 0, 2, 3];

/// The quad's index list is well formed: every index names one of the four
/// corners, each triangle uses three distinct corners, and together the two
/// triangles cover all four corners.
pub proof fn law_unit_quad_indices_cover_corners()
    ensures
        UNIT_QUAD@.len() == 4,
        UNIT_QUAD_INDICES@.len() == 6,
        forall|i: int| 0 <= i < 6 ==> #[trigger] UNIT_QUAD_INDICES@[i] < 4,
        UNIT_QUAD_INDICES@[0] != UNIT_QUAD_INDICES@[1],
        UNIT_QUAD_INDICES@[1] != UNIT_QUAD_INDICES@[2],
        UNIT_QUAD_INDICES@[0] != UNIT_QUAD_INDICES@[2],
        UNIT_QUAD_INDICES@[3] != UNIT_QUAD_INDICES@[4],
        UNIT_QUAD_INDICES@[4] != UNIT_QUAD_INDICES@[5],
        UNIT_QUAD_INDICES@[3] != UNIT_QUAD_INDICES@[5],
        forall|c: u16| c < 4 ==> #[trigger] UNIT_QUAD_INDICES@.contains(c),
{
    assert(UNIT_QUAD_INDICES@[0] == 0);
    assert(UNIT_QUAD_INDICES@[1] == 1);
    assert(UNIT_QUAD_INDICES@[2] == 2);
    assert(UNIT_QUAD_INDICES@[3] == 0);
    assert(UNIT_QUAD_INDICES@[4] == 2);
    assert(UNIT_QUAD_INDICES@[5] == 3);
}

/// What a draw command contributes to a quad batch, stripped of its
/// coordinates and colors.
#[derive(Clone, Copy, PartialEq, Eq, Debug, Structural)]
pub enum CommandKind {
    Clear,
    Rect,
    Text,
}

/// The command a batch instance is built from, by its position in the
/// draw list.
#[derive(Clone, Copy, PartialEq, Eq, Debug, Structural)]
pub enum QuadSource {
    /// A `Rect` command, drawn as its own rectangle.
    Rect(usize),
    /// A `Clear` after the first one, drawn as a full-screen rectangle.
    Clear(usize),
}

/// Position in the draw list of the command an instance comes from.
pub open spec fn source_index(q: QuadSource) -> int {
    match q {
        QuadSource::Rect(i) => i as int,
        QuadSource::Clear(i) => i as int,
    }
}

/// Kind of the command an instance comes from.
pub open spec fn source_kind(q: QuadSource) -> CommandKind {
    match q {
        QuadSource::Rect(_) => CommandKind::Rect,
        QuadSource::Clear(_) => CommandKind::Clear,
    }
}

/// `f` is the position of the first `Clear` in `kinds`.
pub open spec fn is_first_clear(kinds: Seq<CommandKind>, f: int) -> bool {
    &&& 0 <= f < kinds.len()
    &&& kinds[f] == CommandKind::Clear
    &&& forall|i: int| 0 <= i < f ==> kinds[i] != CommandKind::Clear
}

/// `instances` lists, in list order, one source for every `Rect` and every
/// `Clear` that comes after position `f`, and nothing else.
pub open spec fn instances_after(kinds: Seq<CommandKind>, f: int, instances: Seq<QuadSource>) -> bool {
    &&& forall|k: int|
        0 <= k < instances.len() ==> f < #[trigger] source_index(instances[k]) < kinds.len()
            && kinds[source_index(instances[k])] == source_kind(instances[k])
    &&& forall|a: int, b: int|
        0 <= a < b < instances.len() ==> source_index(instances[a]) < source_index(instances[b])
    &&& forall|i: int|
        f < i < kinds.len() && #[trigger] kinds[i] != CommandKind::Text ==> exists|k: int|
            0 <= k < instances.len() && source_index(instances[k]) == i
}

/// The CPU plan of a quad batch: which `Clear` becomes the render pass
/// load-op color, and which commands become instanced quads.
pub struct QuadPlan {
    /// Position of the `Clear` used as the load-op color; `None` when the
    /// list has no `Clear` and the default color applies.
    pub clear: Option<usize>,
    /// One source per instanced quad, in draw order.
    pub instances: Vec<QuadSource>,
}

/// Position after which commands are drawn: after the first `Clear`, or
/// from the start of the list when it has no `Clear`.
pub open spec fn drawn_after(clear: Option<usize>) -> int {
    match clear {
        None => -1,
        Some(f) => f as int,
    }
}

/// `plan` is the batch plan of the command list `kinds`: the first `Clear`
/// becomes the load-op color and wipes everything drawn before it; every
/// `Rect` after it (every `Rect` of the list, when there is no `Clear`)
/// becomes a quad and every later `Clear` a full-screen quad; `Text`
/// produces no quad.
pub open spec fn plans(kinds: Seq<CommandKind>, clear: Option<usize>, instances: Seq<QuadSource>) -> bool {
    &&& match clear {
        None => forall|i: int| 0 <= i < kinds.len() ==> kinds[i] != CommandKind::Clear,
        Some(f) => is_first_clear(kinds, f as int),
    }
    &&& instances_after(kinds, drawn_after(clear), instances)
}

impl QuadPlan {
    /// Plans the batch for a frame's command list, given each command's kind
    /// in draw order.
    pub fn from_kinds(kinds: &[CommandKind]) -> (r: QuadPlan)
        ensures
            plans(kinds@, r.clear, r.instances@),
    {
        let mut clear: Option<usize> = None;
        let mut instances: Vec<QuadSource> = Vec::with_capacity(kinds.len());
        let n = kinds.len();
        let mut i: usize = 0;
        while i < n
            invariant
                n == kinds@.len(),
                i <= n,
                match clear {
                    None => forall|j: int| 0 <= j < i ==> kinds@[j] != CommandKind::Clear,
                    Some(f) => is_first_clear(kinds@, f as int) && f < i,
                },
                instances_after(kinds@.subrange(0, i as int), drawn_after(clear), instances@),
            decreases n - i,
        {
            let ghost before = instances@;
            let ghost pre = kinds@.subrange(0, i as int);
            let ghost post = kinds@.subrange(0, i as int + 1);
            let ghost was_clearing = clear.is_some();
            match kinds[i] {
                CommandKind::Clear => {
                    if clear.is_some() {
                        // A later Clear repaints the whole screen over prior quads.
                        instances.push(QuadSource::Clear(i));
                    } else {
                        // The first Clear becomes the load-op color and wipes
                        // everything drawn before it.
                        instances.clear();
                        clear = Some(i);
                        proof {
                            assert(instances_after(post, i as int, instances@));
                        }
                    }
                },
                CommandKind::Rect => {
                    instances.push(QuadSource::Rect(i));
                },
                CommandKind::Text => {},
            }
            proof {
                if was_clearing || kinds@[i as int] != CommandKind::Clear {
                    let f = drawn_after(clear);
                    assert forall|j: int| f < j < post.len() && #[trigger] post[j] != CommandKind::Text implies exists|k: int|
                        0 <= k < instances@.len() && source_index(instances@[k]) == j by {
                        if j < i {
                            assert(pre[j] == post[j]);
                            let k = choose|k: int| 0 <= k < before.len() && source_index(before[k]) == j;
                            assert(instances@[k] == before[k]);
                        } else {
                            assert(source_index(instances@[before.len() as int]) == j);
                        }
                    }
                    assert forall|k: int| 0 <= k < instances@.len() implies f < #[trigger] source_index(instances@[k]) < post.len()
                        && post[source_index(instances@[k])] == source_kind(instances@[k]) by {
                        if k < before.len() {
                            assert(instances@[k] == before[k]);
                            assert(pre[source_index(before[k])] == post[source_index(before[k])]);
                        }
                    }
                }
            }
            i += 1;
        }
        proof {
            assert(kinds@.subrange(0, n as int) =~= kinds@);
        }
        QuadPlan { clear, instances }
    }
}

/// Two strictly increasing sequences with the same members are equal.
proof fn lemma_increasing_unique(a: Seq<int>, b: Seq<int>)
    requires
        forall|i: int, j: int| 0 <= i < j < a.len() ==> a[i] < a[j],
        forall|i: int, j: int| 0 <= i < j < b.len() ==> b[i] < b[j],
        forall|x: int| a.contains(x) <==> b.contains(x),
    ensures
        a == b,
    decreases a.len(),
{
    if a.len() == 0 {
        if b.len() > 0 {
            assert(b.contains(b[0]));
        }
        assert(a =~= b);
    } else {
        assert(a.contains(a[0]));
        let j = choose|j: int| 0 <= j < b.len() && b[j] == a[0];
        assert(b.contains(b[0]));
        let i = choose|i: int| 0 <= i < a.len() && a[i] == b[0];
        assert(a[0] == b[0]);
        let a2 = a.drop_first();
        let b2 = b.drop_first();
        assert forall|x: int| a2.contains(x) <==> b2.contains(x) by {
            if a2.contains(x) {
                let k = choose|k: int| 0 <= k < a2.len() && a2[k] == x;
                assert(a[k + 1] == x);
                assert(a.contains(x));
                let m = choose|m: int| 0 <= m < b.len() && b[m] == x;
                assert(m != 0);
                assert(b2[m - 1] == x);
            }
            if b2.contains(x) {
                let k = choose|k: int| 0 <= k < b2.len() && b2[k] == x;
                assert(b[k + 1] == x);
                assert(b.contains(x));
                let m = choose|m: int| 0 <= m < a.len() && a[m] == x;
                assert(m != 0);
                assert(a2[m - 1] == x);
            }
        }
        assert forall|p: int, q: int| 0 <= p < q < a2.len() implies a2[p] < a2[q] by {
            assert(a2[p] == a[p + 1] && a2[q] == a[q + 1]);
        }
        assert forall|p: int, q: int| 0 <= p < q < b2.len() implies b2[p] < b2[q] by {
            assert(b2[p] == b[p + 1] && b2[q] == b[q + 1]);
        }
        lemma_increasing_unique(a2, b2);
        assert(a.len() == b.len());
        assert forall|k: int| 0 <= k < a.len() implies a[k] == b[k] by {
            if k > 0 {
                assert(a[k] == a2[k - 1]);
                assert(b[k] == b2[k - 1]);
            }
        }
        assert(a =~= b);
    }
}

/// A batch plan is determined by the command list: any two plans of the
/// same list agree on the load-op clear and on every instance.
pub proof fn law_plan_is_unique(
    kinds: Seq<CommandKind>,
    c1: Option<usize>,
    i1: Seq<QuadSource>,
    c2: Option<usize>,
    i2: Seq<QuadSource>,
)
    requires
        plans(kinds, c1, i1),
        plans(kinds, c2, i2),
    ensures
        c1 == c2,
        i1 == i2,
{
    match (c1, c2) {
        (Some(f1), Some(f2)) => {
            if f1 < f2 {
                assert(kinds[f1 as int] != CommandKind::Clear);
            }
            if f2 < f1 {
                assert(kinds[f2 as int] != CommandKind::Clear);
            }
        },
        (Some(f1), None) => {
            assert(kinds[f1 as int] == CommandKind::Clear);
        },
        (None, Some(f2)) => {
            assert(kinds[f2 as int] == CommandKind::Clear);
        },
        (None, None) => {},
    }
    let a = i1.map_values(|q: QuadSource| source_index(q));
    let b = i2.map_values(|q: QuadSource| source_index(q));
    assert forall|x: int| a.contains(x) <==> b.contains(x) by {
        if a.contains(x) {
            let k = choose|k: int| 0 <= k < a.len() && a[k] == x;
            assert(source_index(i1[k]) == x);
            assert(kinds[x] != CommandKind::Text);
            let m = choose|m: int| 0 <= m < i2.len() && source_index(i2[m]) == x;
            assert(b[m] == x);
        }
        if b.contains(x) {
            let k = choose|k: int| 0 <= k < b.len() && b[k] == x;
            assert(source_index(i2[k]) == x);
            assert(kinds[x] != CommandKind::Text);
            let m = choose|m: int| 0 <= m < i1.len() && source_index(i1[m]) == x;
            assert(a[m] == x);
        }
    }
    assert forall|p: int, q: int| 0 <= p < q < a.len() implies a[p] < a[q] by {
        assert(a[p] == source_index(i1[p]));
        assert(a[q] == source_index(i1[q]));
    }
    assert forall|p: int, q: int| 0 <= p < q < b.len() implies b[p] < b[q] by {
        assert(b[p] == source_index(i2[p]));
        assert(b[q] == source_index(i2[q]));
    }
    lemma_increasing_unique(a, b);
    assert forall|k: int| 0 <= k < i1.len() implies i1[k] == i2[k] by {
        assert(a[k] == b[k]);
        assert(source_index(i1[k]) == source_index(i2[k]));
        assert(source_kind(i1[k]) == kinds[source_index(i1[k])]);
        assert(source_kind(i2[k]) == kinds[source_index(i2[k])]);
    }
    assert(i1 =~= i2);
}

/// A `Clear` followed only by rectangles batches into one instance per
/// rectangle, in draw order, with the `Clear` as the load-op color.
pub proof fn law_clear_then_rects(kinds: Seq<CommandKind>)
    requires
        kinds.len() >= 1,
        kinds[0] == CommandKind::Clear,
        forall|i: int| 1 <= i < kinds.len() ==> kinds[i] == CommandKind::Rect,
        kinds.len() <= usize::MAX,
    ensures
        plans(
            kinds,
            Some(0usize),
            Seq::new((kinds.len() - 1) as nat, |k: int| QuadSource::Rect((k + 1) as usize)),
        ),
{
    let inst = Seq::new((kinds.len() - 1) as nat, |k: int| QuadSource::Rect((k + 1) as usize));
    assert forall|i: int| 0 < i < kinds.len() && #[trigger] kinds[i] != CommandKind::Text implies exists|k: int|
        0 <= k < inst.len() && source_index(inst[k]) == i by {
        assert(source_index(inst[i - 1]) == i);
    }
}

/// Without a `Clear`, every rectangle is drawn: the default clear color
/// applies, and the instances are exactly the list's `Rect` commands, in
/// draw order.
pub proof fn law_no_clear_draws_every_rect(
    kinds: Seq<CommandKind>,
    clear: Option<usize>,
    instances: Seq<QuadSource>,
)
    requires
        forall|i: int| 0 <= i < kinds.len() ==> kinds[i] != CommandKind::Clear,
        plans(kinds, clear, instances),
    ensures
        clear is None,
        forall|k: int| 0 <= k < instances.len() ==> (#[trigger] instances[k]) is Rect,
        forall|a: int, b: int| 0 <= a < b < instances.len() ==> source_index(instances[a]) < source_index(instances[b]),
        forall|i: int| 0 <= i < kinds.len() && #[trigger] kinds[i] == CommandKind::Rect ==> instances.contains(QuadSource::Rect(i as usize)),
{
    if let Some(f) = clear {
        assert(kinds[f as int] == CommandKind::Clear);
    }
    assert forall|k: int| 0 <= k < instances.len() implies (#[trigger] instances[k]) is Rect by {
        assert(kinds[source_index(instances[k])] == source_kind(instances[k]));
    }
    assert forall|i: int| 0 <= i < kinds.len() && #[trigger] kinds[i] == CommandKind::Rect implies instances.contains(QuadSource::Rect(i as usize)) by {
        let k = choose|k: int| 0 <= k < instances.len() && source_index(instances[k]) == i;
        assert(instances[k] is Rect);
        assert(instances[k] == QuadSource::Rect(i as usize));
    }
}

/// `p` is a power of two.
pub open spec fn is_pow2(p: int) -> bool
    decreases p,
{
    if p <= 0 {
        false
    } else if p == 1 {
        true
    } else {
        p % 2 == 0 && is_pow2(p / 2)
    }
}

/// The first power of two at least `n`, doubling upward from `p`.
pub open spec fn pow2_at_least_from(n: int, p: int) -> int
    decreases (if p < n { n - p } else { 0 }),
    when p >= 1
{
    if p >= n {
        p
    } else {
        pow2_at_least_from(n, 2 * p)
    }
}

/// The least power of two that is at least `n`.
pub open spec fn pow2_at_least(n: int) -> int {
    pow2_at_least_from(n, 1)
}

proof fn lemma_pow2_at_least_from(n: int, p: int)
    requires
        p >= 1,
        is_pow2(p),
        p == 1 || p / 2 < n,
    ensures
        is_pow2(pow2_at_least_from(n, p)),
        pow2_at_least_from(n, p) >= n,
        pow2_at_least_from(n, p) >= p,
        pow2_at_least_from(n, p) == 1 || pow2_at_least_from(n, p) / 2 < n,
    decreases (if p < n { n - p } else { 0 }),
{
    if p < n {
        assert((2 * p) / 2 == p);
        assert(is_pow2(2 * p));
        lemma_pow2_at_least_from(n, 2 * p);
    }
}

/// `pow2_at_least(n)` is the least power of two that is at least `n`.
pub proof fn law_pow2_at_least(n: int)
    ensures
        is_pow2(pow2_at_least(n)),
        pow2_at_least(n) >= n,
        pow2_at_least(n) == 1 || pow2_at_least(n) / 2 < n,
{
    lemma_pow2_at_least_from(n, 1);
}

/// The instance-buffer capacity after making room for `needed` instances in
/// a buffer of `current` instances: unchanged when it already fits, else the
/// larger of the next power of two and double the current capacity (at
/// least 1), so the buffer is only ever re-created when it grows.
pub open spec fn grown_capacity(current: int, needed: int) -> int {
    if needed <= current {
        current
    } else {
        let doubled = 2 * (if current >= 1 { current } else { 1 });
        if pow2_at_least(needed) >= doubled {
            pow2_at_least(needed)
        } else {
            doubled
        }
    }
}

/// Grow an instance capacity (power-of-two) so it always holds `needed`
/// instances. The steady state is one allocation that lives for the whole
/// session; only growth re-creates the buffer.
pub fn grown_instance_capacity(current: usize, needed: usize) -> (r: usize)
    requires
        needed > current ==> needed <= usize::MAX / 2 + 1 && current <= usize::MAX / 2,
    ensures
        r == grown_capacity(current as int, needed as int),
        r >= needed,
        r >= current,
        needed > current ==> r >= 2 * current,
{
    if needed <= current {
        return current;
    }
    let mut p: usize = 1;
    while p < needed
        invariant
            1 <= p,
            needed <= usize::MAX / 2 + 1,
            pow2_at_least_from(needed as int, p as int) == pow2_at_least(needed as int),
        decreases (if p < needed { needed - p } else { 0 }),
    {
        p = p * 2;
    }
    proof {
        lemma_pow2_at_least_from(needed as int, 1);
    }
    let base: usize = if current >= 1 { current } else { 1 };
    let doubled = base * 2;
    if p >= doubled {
        p
    } else {
        doubled
    }
}

/// Between two powers of two, the larger is at least twice the smaller.
proof fn lemma_pow2_gap(a: int, b: int)
    requires
        is_pow2(a),
        is_pow2(b),
        a < b,
    ensures
        2 * a <= b,
    decreases a,
{
    if a != 1 {
        assert(b != 1);
        lemma_pow2_gap(a / 2, b / 2);
    }
}

/// Any power of two that is at least `n` while its half is below `n` is
/// the least such power.
proof fn lemma_least_pow2_unique(n: int, p: int)
    requires
        is_pow2(p),
        p >= n,
        p == 1 || p / 2 < n,
    ensures
        p == pow2_at_least(n),
{
    law_pow2_at_least(n);
    let q = pow2_at_least(n);
    if p < q {
        lemma_pow2_gap(p, q);
    }
    if q < p {
        lemma_pow2_gap(q, p);
    }
}

/// The growth rule of the instance buffer: a capacity that already holds
/// `needed` instances is kept; otherwise the new capacity is the larger of
/// double the current capacity (at least 1) and the least power of two that
/// holds `needed`, and it is never larger than that.
pub proof fn law_instance_capacity_growth(current: int, needed: int, p: int)
    requires
        current >= 0,
    ensures
        needed <= current ==> grown_capacity(current, needed) == current,
        needed > current ==> {
            let r = grown_capacity(current, needed);
            let doubled = 2 * (if current >= 1 { current } else { 1 });
            &&& r >= needed
            &&& r >= doubled
            &&& (r == doubled || (is_pow2(r) && (r == 1 || r / 2 < needed)))
            &&& (is_pow2(p) && p >= needed && (p == 1 || p / 2 < needed) ==> r >= p)
        },
{
    law_pow2_at_least(needed);
    if is_pow2(p) && p >= needed && (p == 1 || p / 2 < needed) {
        lemma_least_pow2_unique(needed, p);
    }
}

} // verus!
