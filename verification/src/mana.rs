//! Mana costs and mana pools.
//!
//! A pool tracks the mana of each color, colorless mana, and the total
//! available. Paying a cost takes its colored and colorless pips from their
//! counters and its whole amount from the total; when the generic part was
//! paid with colored mana, colored counters are drained, black first, then
//! blue, white, red, green, colorless, until they add up to no more than the
//! total.
use vstd::prelude::*;

verus! {

/// A mana cost: colored pips, colorless pips, and generic mana.
#[derive(Clone, Copy, Debug, PartialEq, Eq, Structural)]
pub struct ManaCost {
    pub w: i32,
    pub u: i32,
    pub b: i32,
    pub r: i32,
    pub g: i32,
    pub c: i32,
    pub generic: i32,
}

pub open spec fn fits_i32(x: int) -> bool {
    i32::MIN <= x <= i32::MAX
}

impl ManaCost {
    /// Colored and colorless pips together.
    pub open spec fn spec_total_specific(self) -> int {
        self.w + self.u + self.b + self.r + self.g + self.c
    }

    /// The running sums of the pips, then the generic part, stay in `i32`.
    pub open spec fn sums_fit(self) -> bool {
        &&& fits_i32(self.w + self.u)
        &&& fits_i32(self.w + self.u + self.b)
        &&& fits_i32(self.w + self.u + self.b + self.r)
        &&& fits_i32(self.w + self.u + self.b + self.r + self.g)
        &&& fits_i32(self.spec_total_specific())
        &&& fits_i32(self.spec_total_specific() + self.generic)
    }

    pub fn total_specific(&self) -> (r: i32)
        requires
            self.sums_fit(),
        ensures
            r == self.spec_total_specific(),
    {
        self.w + self.u + self.b + self.r + self.g + self.c
    }
}

/// Mana available to a player.
#[derive(Clone, Debug)]
pub struct ManaPool {
    pub w: i32,
    pub u: i32,
    pub b: i32,
    pub r: i32,
    pub g: i32,
    pub c: i32,
    pub total: i32,
}

impl Default for ManaPool {
    fn default() -> (r: Self)
        ensures
            r == (ManaPool { w: 0, u: 0, b: 0, r: 0, g: 0, c: 0, total: 0 }),
    {
        ManaPool { w: 0, u: 0, b: 0, r: 0, g: 0, c: 0, total: 0 }
    }
}

/// The sum of the colored and colorless counters.
pub open spec fn color_sum(p: ManaPool) -> int {
    p.w + p.u + p.b + p.r + p.g + p.c
}

/// `cost` can be paid from `p`: every pip from its own counter and the whole
/// amount from the total.
pub open spec fn can_pay_spec(p: ManaPool, cost: ManaCost) -> bool {
    &&& p.w >= cost.w
    &&& p.u >= cost.u
    &&& p.b >= cost.b
    &&& p.r >= cost.r
    &&& p.g >= cost.g
    &&& p.c >= cost.c
    &&& p.total >= cost.spec_total_specific() + cost.generic
}

/// The pool with the pips and the whole amount of `cost` taken out, before
/// draining.
pub open spec fn after_pips(p: ManaPool, cost: ManaCost) -> ManaPool {
    ManaPool {
        w: (p.w - cost.w) as i32,
        u: (p.u - cost.u) as i32,
        b: (p.b - cost.b) as i32,
        r: (p.r - cost.r) as i32,
        g: (p.g - cost.g) as i32,
        c: (p.c - cost.c) as i32,
        total: (p.total - (cost.spec_total_specific() + cost.generic)) as i32,
    }
}

/// How far the counters exceed the total, as `i32::saturating_sub` gives it.
pub open spec fn excess_of(q: ManaPool) -> int {
    let d = color_sum(q) - q.total;
    if d > i32::MAX {
        i32::MAX as int
    } else if d < i32::MIN {
        i32::MIN as int
    } else {
        d
    }
}

pub open spec fn min_int(a: int, b: int) -> int {
    if a <= b {
        a
    } else {
        b
    }
}

/// One drain step on a counter: `(counter after, amount still to drain)`.
/// Nothing is taken once nothing is left to drain.
pub open spec fn drain_step(field: int, rem: int) -> (int, int) {
    if rem == 0 {
        (field, rem)
    } else {
        (field - min_int(rem, field), rem - min_int(rem, field))
    }
}

/// The counters after draining `excess`, black, blue, white, red, green,
/// colorless in turn: `(w, u, b, r, g, c, left over)`.
pub open spec fn drained(q: ManaPool, excess: int) -> (int, int, int, int, int, int, int) {
    let (b, r0) = drain_step(q.b as int, excess);
    let (u, r1) = drain_step(q.u as int, r0);
    let (w, r2) = drain_step(q.w as int, r1);
    let (r, r3) = drain_step(q.r as int, r2);
    let (g, r4) = drain_step(q.g as int, r3);
    let (c, r5) = drain_step(q.c as int, r4);
    (w, u, b, r, g, c, r5)
}

/// The pool after `spend`.
pub open spec fn spent(p: ManaPool, cost: ManaCost) -> ManaPool {
    let q = after_pips(p, cost);
    let e = excess_of(q);
    if e > 0 {
        let (w, u, b, r, g, c, _) = drained(q, e);
        ManaPool {
            w: w as i32,
            u: u as i32,
            b: b as i32,
            r: r as i32,
            g: g as i32,
            c: c as i32,
            total: q.total,
        }
    } else {
        q
    }
}

/// Every intermediate value of `drain_step` stays in `i32`.
pub open spec fn drain_fits(field: int, rem: int) -> bool {
    let (f, r) = drain_step(field, rem);
    fits_i32(f) && fits_i32(r)
}

/// Every intermediate value of `spend` stays in `i32`.
pub open spec fn spend_fits(p: ManaPool, cost: ManaCost) -> bool {
    let q = after_pips(p, cost);
    let (b, r0) = drain_step(q.b as int, excess_of(q));
    let (u, r1) = drain_step(q.u as int, r0);
    let (w, r2) = drain_step(q.w as int, r1);
    let (r, r3) = drain_step(q.r as int, r2);
    let (g, r4) = drain_step(q.g as int, r3);
    &&& cost.sums_fit()
    &&& fits_i32(p.w - cost.w)
    &&& fits_i32(p.u - cost.u)
    &&& fits_i32(p.b - cost.b)
    &&& fits_i32(p.r - cost.r)
    &&& fits_i32(p.g - cost.g)
    &&& fits_i32(p.c - cost.c)
    &&& fits_i32(p.total - (cost.spec_total_specific() + cost.generic))
    &&& fits_i32(q.w + q.u)
    &&& fits_i32(q.w + q.u + q.b)
    &&& fits_i32(q.w + q.u + q.b + q.r)
    &&& fits_i32(q.w + q.u + q.b + q.r + q.g)
    &&& fits_i32(color_sum(q))
    &&& (excess_of(q) > 0 ==> {
        &&& drain_fits(q.b as int, excess_of(q))
        &&& drain_fits(q.u as int, r0)
        &&& drain_fits(q.w as int, r1)
        &&& drain_fits(q.r as int, r2)
        &&& drain_fits(q.g as int, r3)
        &&& drain_fits(q.c as int, r4)
    })
}

/// The counters and the total stay in `i32` when added.
pub open spec fn add_fits(p: ManaPool, o: ManaPool) -> bool {
    &&& fits_i32(p.w + o.w)
    &&& fits_i32(p.u + o.u)
    &&& fits_i32(p.b + o.b)
    &&& fits_i32(p.r + o.r)
    &&& fits_i32(p.g + o.g)
    &&& fits_i32(p.c + o.c)
    &&& fits_i32(p.total + o.total)
}

/// Take one drain step on `field`.
fn drain_counter(field: &mut i32, remaining: &mut i32)
    requires
        drain_fits(*old(field) as int, *old(remaining) as int),
    ensures
        (*final(field) as int, *final(remaining) as int) == drain_step(
            *old(field) as int,
            *old(remaining) as int,
        ),
{
    if *remaining != 0 {
        let drain = if *remaining <= *field {
            *remaining
        } else {
            *field
        };
        *field = *field - drain;
        *remaining = *remaining - drain;
    }
}

impl ManaPool {
    /// Whether `cost` can be paid from this pool.
    pub fn can_pay(&self, cost: &ManaCost) -> (r: bool)
        requires
            cost.sums_fit(),
        ensures
            r == can_pay_spec(*self, *cost),
    {
        self.w >= cost.w && self.u >= cost.u && self.b >= cost.b && self.r >= cost.r && self.g
            >= cost.g && self.c >= cost.c && self.total >= cost.total_specific() + cost.generic
    }

    /// Pay `cost` from the pool.
    pub fn spend(&mut self, cost: &ManaCost)
        requires
            spend_fits(*old(self), *cost),
        ensures
            *final(self) == spent(*old(self), *cost),
    {
        self.w = self.w - cost.w;
        self.u = self.u - cost.u;
        self.b = self.b - cost.b;
        self.r = self.r - cost.r;
        self.g = self.g - cost.g;
        self.c = self.c - cost.c;
        self.total = self.total - (cost.total_specific() + cost.generic);
        let color_sum = self.w + self.u + self.b + self.r + self.g + self.c;
        // Saturating subtraction, as `i32::saturating_sub`.
        let d: i64 = color_sum as i64 - self.total as i64;
        let excess: i32 = if d > i32::MAX as i64 {
            i32::MAX
        } else if d < i32::MIN as i64 {
            i32::MIN
        } else {
            d as i32
        };
        if excess > 0 {
            let mut remaining = excess;
            drain_counter(&mut self.b, &mut remaining);
            drain_counter(&mut self.u, &mut remaining);
            drain_counter(&mut self.w, &mut remaining);
            drain_counter(&mut self.r, &mut remaining);
            drain_counter(&mut self.g, &mut remaining);
            drain_counter(&mut self.c, &mut remaining);
        }
    }

    /// Add another pool's mana to this one.
    pub fn add(&mut self, other: &ManaPool)
        requires
            add_fits(*old(self), *other),
        ensures
            final(self).w == old(self).w + other.w,
            final(self).u == old(self).u + other.u,
            final(self).b == old(self).b + other.b,
            final(self).r == old(self).r + other.r,
            final(self).g == old(self).g + other.g,
            final(self).c == old(self).c + other.c,
            final(self).total == old(self).total + other.total,
    {
        self.w = self.w + other.w;
        self.u = self.u + other.u;
        self.b = self.b + other.b;
        self.r = self.r + other.r;
        self.g = self.g + other.g;
        self.c = self.c + other.c;
        self.total = self.total + other.total;
    }

    /// Empty the pool.
    pub fn drain(&mut self)
        ensures
            *final(self) == (ManaPool { w: 0, u: 0, b: 0, r: 0, g: 0, c: 0, total: 0 }),
    {
        *self = ManaPool::default();
    }
}

/// Paying a payable cost from a pool with no negative counters leaves no
/// negative counter, takes the whole cost from the total, and leaves the
/// counters adding up to no more than the total.
pub proof fn lemma_spend_keeps_counters_within_total(p: ManaPool, cost: ManaCost)
    requires
        p.w >= 0 && p.u >= 0 && p.b >= 0 && p.r >= 0 && p.g >= 0 && p.c >= 0,
        cost.w >= 0 && cost.u >= 0 && cost.b >= 0 && cost.r >= 0 && cost.g >= 0 && cost.c >= 0
            && cost.generic >= 0,
        can_pay_spec(p, cost),
        spend_fits(p, cost),
    ensures
        ({
            let s = spent(p, cost);
            &&& s.w >= 0 && s.u >= 0 && s.b >= 0 && s.r >= 0 && s.g >= 0 && s.c >= 0
            &&& s.total == p.total - (cost.spec_total_specific() + cost.generic)
            &&& color_sum(s) <= s.total
        }),
{
    let q = after_pips(p, cost);
    let e = excess_of(q);
    assert(q.total >= 0);
    assert(e == color_sum(q) - q.total);
    if e > 0 {
        let (b, r0) = drain_step(q.b as int, e);
        let (u, r1) = drain_step(q.u as int, r0);
        let (w, r2) = drain_step(q.w as int, r1);
        let (r, r3) = drain_step(q.r as int, r2);
        let (g, r4) = drain_step(q.g as int, r3);
        let (c, r5) = drain_step(q.c as int, r4);
        assert(b + (e - r0) == q.b);
        assert(u + (r0 - r1) == q.u);
        assert(w + (r1 - r2) == q.w);
        assert(r + (r2 - r3) == q.r);
        assert(g + (r3 - r4) == q.g);
        assert(c + (r4 - r5) == q.c);
        assert(u >= 0 && w >= 0 && r >= 0 && g >= 0 && c >= 0);
        assert(r5 == 0 || (b == 0 && u == 0 && w == 0 && r == 0 && g == 0 && c == 0));
    }
}

/// Adding mana never makes a payable cost unpayable: after `add` with no
/// negative counter, a cost the pool could pay it still can.
pub proof fn lemma_add_keeps_payable(p: ManaPool, q: ManaPool, cost: ManaCost)
    requires
        can_pay_spec(p, cost),
        q.w >= 0 && q.u >= 0 && q.b >= 0 && q.r >= 0 && q.g >= 0 && q.c >= 0 && q.total >= 0,
        add_fits(p, q),
    ensures
        can_pay_spec(
            ManaPool {
                w: (p.w + q.w) as i32,
                u: (p.u + q.u) as i32,
                b: (p.b + q.b) as i32,
                r: (p.r + q.r) as i32,
                g: (p.g + q.g) as i32,
                c: (p.c + q.c) as i32,
                total: (p.total + q.total) as i32,
            },
            cost,
        ),
{
}

} // verus!
