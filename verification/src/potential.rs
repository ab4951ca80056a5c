//! How much mana a source could add, for the affordability estimate.
//!
//! A source contributes at most 1 to the total, since a single tap or
//! sacrifice makes one mana. It counts 1 towards each color that one of its
//! usable abilities can make, or towards colorless mana when none makes a
//! color.
//! An ability that taps its source is not usable while the source is tapped.
use vstd::prelude::*;

use crate::mana::{fits_i32, ManaPool};
use crate::types::Color;

verus! {

/// A mana ability as the affordability estimate sees it.
pub struct ManaAbility {
    /// Activating it taps its source.
    pub requires_tap: bool,
    /// Activating it sacrifices its source.
    pub requires_sac: bool,
    /// The colors it can make; empty when it makes colorless mana only.
    pub produces: Vec<Color>,
    /// How much mana one activation makes.
    pub produces_count: usize,
}

pub open spec fn usable(ma: ManaAbility, tapped: bool) -> bool {
    !ma.requires_tap || !tapped
}

/// One of the first `n` abilities is usable.
pub open spec fn any_usable(s: Seq<ManaAbility>, n: int, tapped: bool) -> bool {
    exists|i: int| 0 <= i < n && usable(#[trigger] s[i], tapped)
}

/// One of the first `n` abilities is usable and makes a color.
pub open spec fn makes_a_color(s: Seq<ManaAbility>, n: int, tapped: bool) -> bool {
    exists|i: int| 0 <= i < n && usable(#[trigger] s[i], tapped) && s[i].produces@.len() > 0
}

/// One of the first `n` abilities is usable and makes `c`.
pub open spec fn can_make(s: Seq<ManaAbility>, n: int, tapped: bool, c: Color) -> bool {
    exists|i: int| 0 <= i < n && usable(#[trigger] s[i], tapped) && s[i].produces@.contains(c)
}

/// The amount a usable source adds: one tap or sacrifice makes one mana,
/// so a source counts for at most 1.
pub open spec fn amount(s: Seq<ManaAbility>, tapped: bool) -> i32 {
    1
}

/// What the source adds to the counter of color `c`.
pub open spec fn color_share(s: Seq<ManaAbility>, tapped: bool, c: Color) -> int {
    if can_make(s, s.len() as int, tapped, c) {
        amount(s, tapped) as int
    } else {
        0
    }
}

/// The pool with the source's contribution added.
pub open spec fn with_potential(p: ManaPool, s: Seq<ManaAbility>, tapped: bool) -> ManaPool {
    let n = s.len() as int;
    let k = amount(s, tapped);
    if !any_usable(s, n, tapped) {
        p
    } else if !makes_a_color(s, n, tapped) {
        ManaPool { c: (p.c + k) as i32, total: (p.total + k) as i32, ..p }
    } else {
        ManaPool {
            w: (p.w + color_share(s, tapped, Color::White)) as i32,
            u: (p.u + color_share(s, tapped, Color::Blue)) as i32,
            b: (p.b + color_share(s, tapped, Color::Black)) as i32,
            r: (p.r + color_share(s, tapped, Color::Red)) as i32,
            g: (p.g + color_share(s, tapped, Color::Green)) as i32,
            total: (p.total + k) as i32,
            ..p
        }
    }
}

/// A source adds at most 1 to the total: one tap or sacrifice makes one
/// mana.
pub proof fn lemma_source_adds_at_most_one(p: ManaPool, s: Seq<ManaAbility>, tapped: bool)
    requires
        potential_fits(p, s, tapped),
    ensures
        p.total <= with_potential(p, s, tapped).total <= p.total + 1,
{
}

/// What one source adds to the potential pool (an ability can be
/// activated when it does not tap its source or the source is untapped):
/// nothing when none of its abilities can be activated; otherwise exactly 1 to the total and 1 to
/// the counter of every color some activatable ability makes, or 1 to the
/// colorless counter when no activatable ability makes a color.
pub proof fn lemma_potential_rules(p: ManaPool, s: Seq<ManaAbility>, tapped: bool)
    requires
        potential_fits(p, s, tapped),
    ensures
        ({
            let q = with_potential(p, s, tapped);
            let on = exists|i: int| 0 <= i < s.len() && usable(#[trigger] s[i], tapped);
            let colored = exists|i: int|
                0 <= i < s.len() && usable(#[trigger] s[i], tapped) && s[i].produces@.len() > 0;
            &&& forall|ma: ManaAbility| #[trigger] usable(ma, tapped) == (!ma.requires_tap || !tapped)
            &&& q.total == p.total + (if on { 1int } else { 0 })
            &&& q.c == p.c + (if on && !colored { 1int } else { 0 })
            &&& q.w == p.w + (if exists|i: int|
                0 <= i < s.len() && usable(#[trigger] s[i], tapped) && s[i].produces@.contains(Color::White) {
                1int
            } else {
                0
            })
            &&& q.u == p.u + (if exists|i: int|
                0 <= i < s.len() && usable(#[trigger] s[i], tapped) && s[i].produces@.contains(Color::Blue) {
                1int
            } else {
                0
            })
            &&& q.b == p.b + (if exists|i: int|
                0 <= i < s.len() && usable(#[trigger] s[i], tapped) && s[i].produces@.contains(Color::Black) {
                1int
            } else {
                0
            })
            &&& q.r == p.r + (if exists|i: int|
                0 <= i < s.len() && usable(#[trigger] s[i], tapped) && s[i].produces@.contains(Color::Red) {
                1int
            } else {
                0
            })
            &&& q.g == p.g + (if exists|i: int|
                0 <= i < s.len() && usable(#[trigger] s[i], tapped) && s[i].produces@.contains(Color::Green) {
                1int
            } else {
                0
            })
        }),
{
    let n = s.len() as int;
    if !makes_a_color(s, n, tapped) {
        assert forall|c: Color| !can_make(s, n, tapped, c) by {
            if can_make(s, n, tapped, c) {
                let i = choose|i: int| 0 <= i < n && usable(#[trigger] s[i], tapped) && s[i].produces@.contains(c);
                assert(s[i].produces@.len() > 0);
            }
        }
    }
}

/// The additions stay in `i32`.
pub open spec fn potential_fits(p: ManaPool, s: Seq<ManaAbility>, tapped: bool) -> bool {
    let n = s.len() as int;
    let k = amount(s, tapped);
    any_usable(s, n, tapped) ==> {
        &&& fits_i32(p.total + k)
        &&& !makes_a_color(s, n, tapped) ==> fits_i32(p.c + k)
        &&& makes_a_color(s, n, tapped) ==> {
            &&& fits_i32(p.w + color_share(s, tapped, Color::White))
            &&& fits_i32(p.u + color_share(s, tapped, Color::Blue))
            &&& fits_i32(p.b + color_share(s, tapped, Color::Black))
            &&& fits_i32(p.r + color_share(s, tapped, Color::Red))
            &&& fits_i32(p.g + color_share(s, tapped, Color::Green))
        }
    }
}

/// A color flag after the first `j` colors of `ma` were seen, starting from
/// `before`.
pub open spec fn flag_after(before: bool, ma: ManaAbility, j: int, c: Color) -> bool {
    before || ma.produces@.take(j).contains(c)
}

proof fn lemma_push_contains(s: Seq<Color>, x: Color, c: Color)
    ensures
        s.push(x).contains(c) == (s.contains(c) || x == c),
{
    if s.contains(c) {
        let k = choose|k: int| 0 <= k < s.len() && s[k] == c;
        assert(s.push(x)[k] == c);
    }
    if x == c {
        assert(s.push(x)[s.len() as int] == c);
    }
    if s.push(x).contains(c) {
        let k = choose|k: int| 0 <= k < s.len() + 1 && s.push(x)[k] == c;
        if k < s.len() {
            assert(s[k] == c);
        }
    }
}

/// Add one source's contribution to `p`.
pub fn accumulate_source_potential(abilities: &[ManaAbility], tapped: bool, p: &mut ManaPool)
    requires
        potential_fits(*old(p), abilities@, tapped),
    ensures
        *final(p) == with_potential(*old(p), abilities@, tapped),
{
    let ghost s = abilities@;
    let n = abilities.len();
    let mut any = false;
    let mut any_color = false;
    let mut w = false;
    let mut u = false;
    let mut b = false;
    let mut r = false;
    let mut g = false;
    for i in 0..n
        invariant
            n == s.len(),
            s == abilities@,
            any == any_usable(s, i as int, tapped),
            any_color == makes_a_color(s, i as int, tapped),
            w == can_make(s, i as int, tapped, Color::White),
            u == can_make(s, i as int, tapped, Color::Blue),
            b == can_make(s, i as int, tapped, Color::Black),
            r == can_make(s, i as int, tapped, Color::Red),
            g == can_make(s, i as int, tapped, Color::Green),
    {
        let ma = &abilities[i];
        let ghost (w0, u0, b0, r0, g0) = (w, u, b, r, g);
        if !ma.requires_tap || !tapped {
            any = true;
            for j in 0..ma.produces.len()
                invariant
                    ma == &abilities[i as int],
                    j <= ma.produces@.len(),
                    any_color == (makes_a_color(s, i as int, tapped) || j > 0),
                    w == flag_after(w0, *ma, j as int, Color::White),
                    u == flag_after(u0, *ma, j as int, Color::Blue),
                    b == flag_after(b0, *ma, j as int, Color::Black),
                    r == flag_after(r0, *ma, j as int, Color::Red),
                    g == flag_after(g0, *ma, j as int, Color::Green),
            {
                any_color = true;
                proof {
                    let before = ma.produces@.take(j as int);
                    assert(ma.produces@.take(j + 1) =~= before.push(ma.produces@[j as int]));
                    lemma_push_contains(before, ma.produces@[j as int], Color::White);
                    lemma_push_contains(before, ma.produces@[j as int], Color::Blue);
                    lemma_push_contains(before, ma.produces@[j as int], Color::Black);
                    lemma_push_contains(before, ma.produces@[j as int], Color::Red);
                    lemma_push_contains(before, ma.produces@[j as int], Color::Green);
                }
                match ma.produces[j] {
                    Color::White => w = true,
                    Color::Blue => u = true,
                    Color::Black => b = true,
                    Color::Red => r = true,
                    Color::Green => g = true,
                }
            }
            proof {
                assert(ma.produces@.take(ma.produces@.len() as int) =~= ma.produces@);
            }
        }
        proof {
            assert(s[i as int] == *ma);
            if usable(*ma, tapped) {
                assert(any_usable(s, i + 1, tapped));
            }
            assert(any == any_usable(s, i + 1, tapped));
            assert(any_color == makes_a_color(s, i + 1, tapped));
            assert(w == can_make(s, i + 1, tapped, Color::White));
            assert(u == can_make(s, i + 1, tapped, Color::Blue));
            assert(b == can_make(s, i + 1, tapped, Color::Black));
            assert(r == can_make(s, i + 1, tapped, Color::Red));
            assert(g == can_make(s, i + 1, tapped, Color::Green));
        }
    }
    if !any {
        return;
    }
    let count: i32 = 1;
    p.total = p.total + count;
    if !any_color {
        p.c = p.c + count;
    } else {
        if w {
            p.w = p.w + count;
        }
        if u {
            p.u = p.u + count;
        }
        if b {
            p.b = p.b + count;
        }
        if r {
            p.r = p.r + count;
        }
        if g {
            p.g = p.g + count;
        }
    }
}

} // verus!
