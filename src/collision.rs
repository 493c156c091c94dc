use vstd::prelude::*;
use crate::types::Rect;

verus! {

/// A fixed obstacle.
pub struct Wall {
    pub rect: Rect,
}

/// A moving body: a box and a velocity in pixels per step.
pub struct Mobile {
    pub rect: Rect,
    pub vx: i32,
    pub vy: i32,
}

impl Mobile {
    pub fn new(rect: Rect, vx: i32, vy: i32) -> (r: Self)
        ensures
            r == (Mobile { rect, vx, vy }),
    {
        Self { rect, vx, vy }
    }

    /// Moves the body by its velocity.
    pub fn update(&mut self)
        requires
            i32::MIN <= old(self).rect.x + old(self).vx <= i32::MAX,
            i32::MIN <= old(self).rect.y + old(self).vy <= i32::MAX,
        ensures
            final(self).vx == old(self).vx,
            final(self).vy == old(self).vy,
            final(self).rect == (Rect {
                x: (old(self).rect.x + old(self).vx) as i32,
                y: (old(self).rect.y + old(self).vy) as i32,
                ..old(self).rect
            }),
    {
        self.rect.translate(self.vx, self.vy)
    }
}

/// Which body of a contact: an index into the walls or into the mobiles.
#[derive(PartialEq, Eq, Clone, Copy, Debug, Structural)]
pub enum ColliderID {
    Static(usize),
    Dynamic(usize),
}

/// Two touching bodies and how far they overlap along the shallower axis.
#[derive(PartialEq, Eq, Clone, Copy, Debug)]
pub struct Contact {
    pub a: ColliderID,
    pub b: ColliderID,
    pub mtv: (i32, i32),
}

/// Do the two boxes touch or overlap (shared edges count)?
pub open spec fn touching(r1: Rect, r2: Rect) -> bool {
    &&& r1.x <= r2.x + r2.w
    &&& r2.x <= r1.x + r1.w
    &&& r1.y <= r2.y + r2.h
    &&& r2.y <= r1.y + r1.h
}

/// Length of the overlap of `[a, a + aw]` and `[b, b + bw]` (negative when apart).
pub open spec fn overlap(a: int, aw: int, b: int, bw: int) -> int {
    let hi = if a + aw < b + bw {
        a + aw
    } else {
        b + bw
    };
    let lo = if a > b {
        a
    } else {
        b
    };
    hi - lo
}

/// The displacement that separates two touching boxes along the axis where they
/// overlap least: `(0, y_overlap)` when the x overlap is larger, else `(x_overlap, 0)`.
pub open spec fn separation(r1: Rect, r2: Rect) -> (i32, i32) {
    let ox = overlap(r1.x as int, r1.w as int, r2.x as int, r2.w as int);
    let oy = overlap(r1.y as int, r1.h as int, r2.y as int, r2.h as int);
    if ox > oy {
        (0, oy as i32)
    } else {
        (ox as i32, 0)
    }
}

fn overlap_exec(a: i32, aw: u16, b: i32, bw: u16) -> (r: i64)
    ensures
        r == overlap(a as int, aw as int, b as int, bw as int),
{
    let ae = a as i64 + aw as i64;
    let be = b as i64 + bw as i64;
    let hi = if ae < be {
        ae
    } else {
        be
    };
    let lo = if a > b {
        a as i64
    } else {
        b as i64
    };
    hi - lo
}

/// Do the boxes touch or overlap?
pub fn rect_touching(r1: Rect, r2: Rect) -> (r: bool)
    ensures
        r == touching(r1, r2),
{
    r1.x as i64 <= r2.x as i64 + r2.w as i64 && r2.x as i64 <= r1.x as i64 + r1.w as i64 && r1.y as i64
        <= r2.y as i64 + r2.h as i64 && r2.y as i64 <= r1.y as i64 + r1.h as i64
}

/// How much the boxes overlap on each axis, if they touch.
pub fn rect_displacement(r1: Rect, r2: Rect) -> (r: Option<(i32, i32)>)
    ensures
        r is Some <==> touching(r1, r2),
        r is Some ==> r->0 == (
            overlap(r1.x as int, r1.w as int, r2.x as int, r2.w as int) as i32,
            overlap(r1.y as int, r1.h as int, r2.y as int, r2.h as int) as i32,
        ),
        r matches Some((ox, oy)) ==> 0 <= ox <= u16::MAX && 0 <= oy <= u16::MAX,
{
    let x_overlap = overlap_exec(r1.x, r1.w, r2.x, r2.w);
    let y_overlap = overlap_exec(r1.y, r1.h, r2.y, r2.h);
    if x_overlap >= 0 && y_overlap >= 0 {
        Some((x_overlap as i32, y_overlap as i32))
    } else {
        None
    }
}

fn contact_between(a: ColliderID, r1: Rect, b: ColliderID, r2: Rect) -> (c: Contact)
    requires
        touching(r1, r2),
    ensures
        c == (Contact { a, b, mtv: separation(r1, r2) }),
{
    let overlap = rect_displacement(r1, r2).unwrap();
    let mut mtv: (i32, i32) = (0, 0);
    if overlap.0 > overlap.1 {
        mtv.1 = overlap.1;
    } else {
        mtv.0 = overlap.0;
    }
    Contact { a, b, mtv }
}

/// Contacts of mobile `ai` with the mobiles `ai + 1 .. k`, in index order.
pub open spec fn mobile_row(dynamics: Seq<Mobile>, ai: int, k: int) -> Seq<Contact>
    decreases k - ai,
{
    if k <= ai + 1 {
        Seq::empty()
    } else {
        let prev = mobile_row(dynamics, ai, k - 1);
        if touching(dynamics[ai].rect, dynamics[k - 1].rect) {
            prev.push(
                Contact {
                    a: ColliderID::Dynamic(ai as usize),
                    b: ColliderID::Dynamic((k - 1) as usize),
                    mtv: separation(dynamics[ai].rect, dynamics[k - 1].rect),
                },
            )
        } else {
            prev
        }
    }
}

/// Mobile-mobile contacts of the first `k` mobiles' rows.
pub open spec fn mobile_contacts(dynamics: Seq<Mobile>, k: int) -> Seq<Contact>
    decreases k,
{
    if k <= 0 {
        Seq::empty()
    } else {
        mobile_contacts(dynamics, k - 1) + mobile_row(dynamics, k - 1, dynamics.len() as int)
    }
}

/// Contacts of mobile `ai` with the walls `0 .. k`, in index order.
pub open spec fn wall_row(statics: Seq<Wall>, dynamics: Seq<Mobile>, ai: int, k: int) -> Seq<Contact>
    decreases k,
{
    if k <= 0 {
        Seq::empty()
    } else {
        let prev = wall_row(statics, dynamics, ai, k - 1);
        if touching(dynamics[ai].rect, statics[k - 1].rect) {
            prev.push(
                Contact {
                    a: ColliderID::Dynamic(ai as usize),
                    b: ColliderID::Static((k - 1) as usize),
                    mtv: separation(dynamics[ai].rect, statics[k - 1].rect),
                },
            )
        } else {
            prev
        }
    }
}

/// Mobile-wall contacts of the first `k` mobiles.
pub open spec fn wall_contacts(statics: Seq<Wall>, dynamics: Seq<Mobile>, k: int) -> Seq<Contact>
    decreases k,
{
    if k <= 0 {
        Seq::empty()
    } else {
        wall_contacts(statics, dynamics, k - 1) + wall_row(statics, dynamics, k - 1, statics.len() as int)
    }
}

/// Appends every contact: first each pair of mobiles `(a, b)` with `a < b`, then
/// each mobile against each wall, both in index order.
pub fn gather_contacts(statics: &[Wall], dynamics: &[Mobile], into: &mut Vec<Contact>)
    ensures
        final(into)@ == old(into)@ + mobile_contacts(dynamics@, dynamics@.len() as int) + wall_contacts(
            statics@,
            dynamics@,
            dynamics@.len() as int,
        ),
{
    let n = dynamics.len();
    let ghost start = into@;
    let mut ai: usize = 0;
    while ai < n
        invariant
            n == dynamics@.len(),
            ai <= n,
            into@ == start + mobile_contacts(dynamics@, ai as int),
        decreases n - ai,
    {
        let ghost row_start = into@;
        let mut bi: usize = ai + 1;
        while bi < n
            invariant
                n == dynamics@.len(),
                ai < n,
                ai + 1 <= bi <= n,
                row_start == start + mobile_contacts(dynamics@, ai as int),
                into@ == row_start + mobile_row(dynamics@, ai as int, bi as int),
            decreases n - bi,
        {
            if rect_touching(dynamics[ai].rect, dynamics[bi].rect) {
                into.push(contact_between(ColliderID::Dynamic(ai), dynamics[ai].rect, ColliderID::Dynamic(bi), dynamics[bi].rect));
            }
            bi += 1;
            proof {
                assert(into@ =~= row_start + mobile_row(dynamics@, ai as int, bi as int));
            }
        }
        ai += 1;
        proof {
            assert(into@ =~= start + mobile_contacts(dynamics@, ai as int));
        }
    }
    let ghost mid = into@;
    let m = statics.len();
    let mut ai: usize = 0;
    while ai < n
        invariant
            n == dynamics@.len(),
            m == statics@.len(),
            ai <= n,
            into@ == mid + wall_contacts(statics@, dynamics@, ai as int),
        decreases n - ai,
    {
        let ghost row_start = into@;
        let mut bi: usize = 0;
        while bi < m
            invariant
                n == dynamics@.len(),
                m == statics@.len(),
                ai < n,
                bi <= m,
                row_start == mid + wall_contacts(statics@, dynamics@, ai as int),
                into@ == row_start + wall_row(statics@, dynamics@, ai as int, bi as int),
            decreases m - bi,
        {
            if rect_touching(dynamics[ai].rect, statics[bi].rect) {
                into.push(contact_between(ColliderID::Dynamic(ai), dynamics[ai].rect, ColliderID::Static(bi), statics[bi].rect));
            }
            bi += 1;
            proof {
                assert(into@ =~= row_start + wall_row(statics@, dynamics@, ai as int, bi as int));
            }
        }
        ai += 1;
        proof {
            assert(into@ =~= mid + wall_contacts(statics@, dynamics@, ai as int));
        }
    }
    proof {
        assert(into@ =~= start + mobile_contacts(dynamics@, n as int) + wall_contacts(statics@, dynamics@, n as int));
    }
}

/// Sort key that puts deeper contacts first.
pub open spec fn depth_key(c: Contact) -> int {
    -(c.mtv.0 * c.mtv.0 + c.mtv.1 * c.mtv.1)
}

/// Sort key of a contact: the negated squared length of its displacement.
pub fn contact_key(c: &Contact) -> (r: i128)
    ensures
        r == depth_key(*c),
{
    let x = c.mtv.0 as i128;
    let y = c.mtv.1 as i128;
    proof {
        assert(x * x <= 0x4000_0000_0000_0000) by (nonlinear_arith)
            requires
                -0x8000_0000 <= x <= 0x7fff_ffff,
        ;
        assert(y * y <= 0x4000_0000_0000_0000) by (nonlinear_arith)
            requires
                -0x8000_0000 <= y <= 0x7fff_ffff,
        ;
        assert(0 <= x * x) by (nonlinear_arith);
        assert(0 <= y * y) by (nonlinear_arith);
    }
    -(x * x + y * y)
}

/// Relies on slice::sort_unstable_by_key: the slice is reordered (equal keys in no
/// promised order) so that the keys never decrease.
#[verifier::external_body]
fn sort_by_depth(contacts: &mut [Contact])
    ensures
        final(contacts)@.to_multiset() == old(contacts)@.to_multiset(),
        forall|i: int, j: int|
            0 <= i < j < final(contacts)@.len() ==> depth_key(#[trigger] final(contacts)@[i]) <= depth_key(
                #[trigger] final(contacts)@[j],
            ),
{
    contacts.sort_unstable_by_key(|c| contact_key(c))
}

/// Mobile `m` pushed out of `wall` by `mtv`, away from the wall's corner, with its
/// velocity stopped on each axis it was pushed along.
pub open spec fn push_out(m: Mobile, wall: Rect, mtv: (i32, i32)) -> Mobile {
    let xt = if m.rect.x > wall.x {
        mtv.0 as int
    } else {
        -mtv.0
    };
    let yt = if m.rect.y > wall.y {
        mtv.1 as int
    } else {
        -mtv.1
    };
    Mobile {
        rect: Rect { x: (m.rect.x + xt) as i32, y: (m.rect.y + yt) as i32, ..m.rect },
        vx: if mtv.0 != 0 {
            0
        } else {
            m.vx
        },
        vy: if mtv.1 != 0 {
            0
        } else {
            m.vy
        },
    }
}

/// The mobiles after resolving `cs` in order: a mobile-wall contact pushes the
/// mobile out, a contact between two mobiles ends the pass, any other is skipped.
pub open spec fn resolve(statics: Seq<Wall>, dynamics: Seq<Mobile>, cs: Seq<Contact>) -> Seq<Mobile>
    decreases cs.len(),
{
    if cs.len() == 0 {
        dynamics
    } else {
        let c = cs[0];
        match c.a {
            ColliderID::Static(_) => resolve(statics, dynamics, cs.drop_first()),
            ColliderID::Dynamic(ia) => match c.b {
                ColliderID::Dynamic(_) => dynamics,
                ColliderID::Static(ib) => resolve(
                    statics,
                    dynamics.update(ia as int, push_out(dynamics[ia as int], statics[ib as int].rect, c.mtv)),
                    cs.drop_first(),
                ),
            },
        }
    }
}

/// The contact's indices name existing bodies, and its displacement is no longer
/// than a box side.
pub open spec fn contact_ok(c: Contact, walls: nat, mobiles: nat) -> bool {
    &&& (c.a matches ColliderID::Dynamic(ia) ==> ia < mobiles)
    &&& (c.b matches ColliderID::Static(ib) ==> ib < walls)
    &&& -(u16::MAX as int) <= c.mtv.0 <= u16::MAX
    &&& -(u16::MAX as int) <= c.mtv.1 <= u16::MAX
}

/// The mobile's box stays inside the `i32` range when moved by up to `reach`.
pub open spec fn room_to_move(m: Mobile, reach: int) -> bool {
    &&& i32::MIN + reach <= m.rect.x <= i32::MAX - reach
    &&& i32::MIN + reach <= m.rect.y <= i32::MAX - reach
}

/// No mobile's box moved more than `d` along either axis from `a` to `b`.
pub open spec fn moved_at_most(a: Seq<Mobile>, b: Seq<Mobile>, d: int) -> bool {
    &&& a.len() == b.len()
    &&& forall|i: int|
        0 <= i < a.len() ==> {
            &&& -d <= #[trigger] b[i].rect.x - a[i].rect.x <= d
            &&& -d <= b[i].rect.y - a[i].rect.y <= d
        }
}

/// Sorts the contacts deepest first, then resolves them in that order.
pub fn restitute(statics: &[Wall], dynamics: &mut [Mobile], contacts: &mut [Contact])
    requires
        forall|i: int| 0 <= i < old(contacts)@.len() ==> contact_ok(#[trigger] old(contacts)@[i], statics@.len(), old(dynamics)@.len()),
        forall|i: int|
            0 <= i < old(dynamics)@.len() ==> room_to_move(
                #[trigger] old(dynamics)@[i],
                u16::MAX * old(contacts)@.len(),
            ),
    ensures
        final(contacts)@.to_multiset() == old(contacts)@.to_multiset(),
        forall|i: int, j: int|
            0 <= i < j < final(contacts)@.len() ==> depth_key(#[trigger] final(contacts)@[i]) <= depth_key(
                #[trigger] final(contacts)@[j],
            ),
        final(dynamics)@ == resolve(statics@, old(dynamics)@, final(contacts)@),
{
    sort_by_depth(contacts);
    let ghost sorted = contacts@;
    let ghost start = dynamics@;
    proof {
        broadcast use vstd::seq_lib::group_to_multiset_ensures;
        assert forall|i: int| 0 <= i < sorted.len() implies contact_ok(#[trigger] sorted[i], statics@.len(), start.len()) by {
            assert(sorted.contains(sorted[i]));
            assert(old(contacts)@.to_multiset().count(sorted[i]) > 0);
            assert(old(contacts)@.contains(sorted[i]));
        }
        assert(sorted.to_multiset().len() == old(contacts)@.to_multiset().len());
        assert(sorted.len() == old(contacts)@.len());
    }
    let n = contacts.len();
    let ghost reach = u16::MAX * n;
    let mut k: usize = 0;
    assert(sorted.subrange(0, n as int) =~= sorted);
    while k < n
        invariant_except_break
            resolve(statics@, start, sorted) == resolve(statics@, dynamics@, sorted.subrange(k as int, n as int)),
        invariant
            n == sorted.len(),
            contacts@ == sorted,
            start == old(dynamics)@,
            sorted.to_multiset() == old(contacts)@.to_multiset(),
            forall|i: int, j: int|
                0 <= i < j < sorted.len() ==> depth_key(#[trigger] sorted[i]) <= depth_key(#[trigger] sorted[j]),
            k <= n,
            dynamics@.len() == start.len(),
            reach == u16::MAX * n,
            forall|i: int| 0 <= i < n ==> contact_ok(#[trigger] sorted[i], statics@.len(), start.len()),
            forall|i: int|
                0 <= i < start.len() ==> room_to_move(#[trigger] start[i], reach),
            moved_at_most(start, dynamics@, u16::MAX * k),
        ensures
            resolve(statics@, start, sorted) == dynamics@,
        decreases n - k,
    {
        let c = contacts[k];
        let ghost prev = dynamics@;
        let ghost rest = sorted.subrange(k as int, n as int);
        assert(rest[0] == c);
        assert(rest.drop_first() =~= sorted.subrange(k + 1, n as int));
        match c.a {
            ColliderID::Static(_) => {},
            ColliderID::Dynamic(index_a) => match c.b {
                ColliderID::Dynamic(_) => {
                    return;
                },
                ColliderID::Static(index_b) => {
                    let ghost before = dynamics@;
                    let obj_a = &dynamics[index_a];
                    let obj_b = &statics[index_b];
                    let a_under = obj_a.rect.y > obj_b.rect.y;
                    let a_totheright = obj_a.rect.x > obj_b.rect.x;
                    let mut x_translate = c.mtv.0;
                    let mut y_translate = c.mtv.1;
                    let mut vx = obj_a.vx;
                    let mut vy = obj_a.vy;
                    if x_translate != 0 {
                        vx = 0;
                    }
                    if y_translate != 0 {
                        vy = 0;
                    }
                    if !a_under {
                        y_translate = -y_translate;
                    }
                    if !a_totheright {
                        x_translate = -x_translate;
                    }
                    proof {
                        assert(u16::MAX * k + u16::MAX == u16::MAX * (k + 1)) by (nonlinear_arith);
                        assert(u16::MAX * (k + 1) <= u16::MAX * n) by (nonlinear_arith)
                            requires
                                k + 1 <= n,
                        ;
                        assert(room_to_move(start[index_a as int], reach));
                    }
                    let mut rect = obj_a.rect;
                    rect.translate(x_translate, y_translate);
                    dynamics[index_a] = Mobile { rect, vx, vy };
                    proof {
                        assert(dynamics@ =~= before.update(
                            index_a as int,
                            push_out(before[index_a as int], statics@[index_b as int].rect, c.mtv),
                        ));
                        assert(moved_at_most(prev, dynamics@, u16::MAX as int));
                    }
                },
            },
        }
        proof {
            assert(moved_at_most(prev, dynamics@, u16::MAX as int));
            assert(u16::MAX * k + u16::MAX == u16::MAX * (k + 1)) by (nonlinear_arith);
            assert(moved_at_most(start, dynamics@, u16::MAX * (k + 1))) by {
                assert forall|i: int| 0 <= i < start.len() implies {
                    &&& -(u16::MAX * (k + 1)) <= #[trigger] dynamics@[i].rect.x - start[i].rect.x <= u16::MAX * (k + 1)
                    &&& -(u16::MAX * (k + 1)) <= dynamics@[i].rect.y - start[i].rect.y <= u16::MAX * (k + 1)
                } by {
                    assert(-(u16::MAX * k) <= prev[i].rect.x - start[i].rect.x <= u16::MAX * k);
                    assert(-(u16::MAX as int) <= dynamics@[i].rect.x - prev[i].rect.x <= u16::MAX);
                }
            }
        }
        k += 1;
    }
    proof {
        assert(sorted.subrange(n as int, n as int).len() == 0);
    }
}

} // verus!
