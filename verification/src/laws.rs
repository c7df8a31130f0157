//! General properties of the core, stated and proved once and for all:
//! stack discipline, timer monotonicity, and the involution of XOR
//! drawing.

use vstd::prelude::*;

use vstd::arithmetic::div_mod::{
    lemma_fundamental_div_mod, lemma_fundamental_div_mod_converse_mod, lemma_mod_bound,
};

use crate::semantics::{
    coll_upto, draw_pixel, draw_upto, pix, sprite_bit, timers_step,
};
use crate::state::{pop_spec, push_spec, wf, State, STACK_SIZE};

verus! {

/// The state after pushing every value of `vs` in order.
pub open spec fn push_all(s: State, vs: Seq<u16>) -> State
    decreases vs.len(),
{
    if vs.len() == 0 {
        s
    } else {
        push_all(push_spec(s, vs[0]), vs.skip(1))
    }
}

/// The state after `n` pops, and the popped values in the order they
/// came off.
pub open spec fn pop_all(s: State, n: nat) -> (State, Seq<u16>)
    decreases n,
{
    if n == 0 {
        (s, Seq::empty())
    } else {
        let (s1, v) = pop_spec(s);
        let (s2, rest) = pop_all(s1, (n - 1) as nat);
        (s2, seq![v] + rest)
    }
}

/// Pushing `vs` appends it to the live entries and raises `sp` by its
/// length; nothing else changes.
proof fn lemma_push_all(s: State, vs: Seq<u16>)
    requires
        wf(s),
        s.sp + vs.len() <= STACK_SIZE,
    ensures
        wf(push_all(s, vs)),
        push_all(s, vs).sp == s.sp + vs.len(),
        push_all(s, vs).stack.len() == s.stack.len(),
        push_all(s, vs).stack.subrange(0, s.sp + vs.len()) == s.stack.subrange(0, s.sp as int)
            + vs,
        push_all(s, vs) == (State {
            stack: push_all(s, vs).stack,
            sp: push_all(s, vs).sp,
            ..s
        }),
    decreases vs.len(),
{
    if vs.len() == 0 {
        assert(push_all(s, vs).stack.subrange(0, s.sp as int + 0) =~= s.stack.subrange(
            0,
            s.sp as int,
        ) + vs);
        assert(push_all(s, vs) =~= (State {
            stack: push_all(s, vs).stack,
            sp: push_all(s, vs).sp,
            ..s
        }));
    } else {
        let s1 = push_spec(s, vs[0]);
        lemma_push_all(s1, vs.skip(1));
        assert(s1.stack.subrange(0, s1.sp as int) =~= s.stack.subrange(0, s.sp as int) + seq![
            vs[0],
        ]);
        assert(push_all(s1, vs.skip(1)).stack.subrange(0, s.sp + vs.len())
            =~= s1.stack.subrange(0, s1.sp as int) + vs.skip(1));
        assert(s.stack.subrange(0, s.sp as int) + seq![vs[0]] + vs.skip(1) =~= s.stack.subrange(
            0,
            s.sp as int,
        ) + vs);
        assert(push_all(s, vs) =~= (State {
            stack: push_all(s, vs).stack,
            sp: push_all(s, vs).sp,
            ..s
        }));
    }
}

/// Popping `n` entries returns the top `n` live entries in reverse
/// order, lowers `sp` by `n`, and leaves every stack slot in place.
proof fn lemma_pop_all(s: State, n: nat)
    requires
        wf(s),
        n <= s.sp,
    ensures
        wf(pop_all(s, n).0),
        pop_all(s, n).0 == (State { sp: (s.sp - n) as u16, ..s }),
        pop_all(s, n).1 == s.stack.subrange(s.sp - n, s.sp as int).reverse(),
    decreases n,
{
    if n == 0 {
        assert(pop_all(s, n).1 =~= s.stack.subrange(s.sp as int, s.sp as int).reverse());
        assert(pop_all(s, n).0 =~= (State { sp: (s.sp - n) as u16, ..s }));
    } else {
        let (s1, v) = pop_spec(s);
        lemma_pop_all(s1, (n - 1) as nat);
        assert(pop_all(s, n).0 =~= (State { sp: (s.sp - n) as u16, ..s }));
        assert(seq![v] + s1.stack.subrange(s1.sp - (n - 1), s1.sp as int).reverse()
            =~= s.stack.subrange(s.sp - n, s.sp as int).reverse());
    }
}

/// Stack discipline (LIFO): pushing up to `STACK_SIZE` values and then
/// popping as many returns exactly those values in reverse order,
/// restores the stack pointer and the entries below it, and touches
/// nothing else of the state. (That the one-past-capacity push reports
/// `StackOverflow` and the empty-stack pop `StackUnderflow`, each
/// changing nothing, is part of the contracts of `push` and `pop`.)
pub proof fn lemma_stack_lifo(s: State, vs: Seq<u16>)
    requires
        wf(s),
        s.sp + vs.len() <= STACK_SIZE,
    ensures
        pop_all(push_all(s, vs), vs.len()).1 == vs.reverse(),
        pop_all(push_all(s, vs), vs.len()).0 == (State {
            stack: push_all(s, vs).stack,
            ..s
        }),
        pop_all(push_all(s, vs), vs.len()).0.stack.subrange(0, s.sp as int) == s.stack.subrange(
            0,
            s.sp as int,
        ),
{
    let t = push_all(s, vs);
    lemma_push_all(s, vs);
    lemma_pop_all(t, vs.len());
    let pre = s.stack.subrange(0, s.sp as int);
    assert forall|j: int| 0 <= j < vs.len() implies t.stack[s.sp + j] == vs[j] by {
        assert(t.stack.subrange(0, s.sp + vs.len())[s.sp + j] == (pre + vs)[s.sp + j]);
    }
    assert(t.stack.subrange(t.sp - vs.len(), t.sp as int) =~= vs);
    assert(pop_all(t, vs.len()).0 =~= (State { stack: t.stack, ..s }));
    assert(t.stack.subrange(0, s.sp as int) =~= s.stack.subrange(0, s.sp as int));
}

/// The state after `n` timer ticks.
pub open spec fn timers_n(s: State, n: nat) -> State
    decreases n,
{
    if n == 0 {
        s
    } else {
        timers_step(timers_n(s, (n - 1) as nat))
    }
}

/// Timer monotonicity: `n` timer ticks lower each timer by `n`, to
/// exactly zero once `n` reaches its starting value, and never below;
/// nothing else of the state changes. In particular a delay timer
/// started at `d > 0` is zero after exactly `d` ticks and stays zero on
/// every further tick.
pub proof fn lemma_timers_run_down(s: State, n: nat)
    ensures
        timers_n(s, n) == (State {
            dt: if n <= s.dt {
                (s.dt - n) as u8
            } else {
                0
            },
            st: if n <= s.st {
                (s.st - n) as u8
            } else {
                0
            },
            ..s
        }),
    decreases n,
{
    if n == 0 {
        assert(timers_n(s, n) =~= (State { dt: s.dt, st: s.st, ..s }));
    } else {
        lemma_timers_run_down(s, (n - 1) as nat);
        assert(timers_n(s, n) =~= (State {
            dt: if n <= s.dt {
                (s.dt - n) as u8
            } else {
                0
            },
            st: if n <= s.st {
                (s.st - n) as u8
            } else {
                0
            },
            ..s
        }));
    }
}

/// How far below row `t` the sprite's top row `vy` sits, wrapping at 32.
pub open spec fn row_off(vy: int, t: int) -> int {
    (t - vy) % 32
}

/// How far right of column `vx` the column `c` sits, wrapping at 64.
pub open spec fn col_off(vx: int, c: int) -> int {
    (c - vx) % 64
}

/// Whether the first `k` sprite-pixel steps of a draw at `(vx, vy)`
/// have already handled the pixel at row `t`, column `c`.
pub open spec fn drawn(vx: int, vy: int, k: nat, t: int, c: int) -> bool {
    col_off(vx, c) < 8 && 8 * row_off(vy, t) + col_off(vx, c) < k
}

/// Offsetting `base` by `r < m` and wrapping lands at offset `r` again.
proof fn lemma_wrap_off(m: int, base: int, r: int)
    requires
        0 < m,
        0 <= r < m,
    ensures
        ((base + r) % m - base) % m == r,
{
    lemma_fundamental_div_mod(base + r, m);
    let q = (base + r) / m;
    let t = (base + r) % m;
    assert(t - base == (-q) * m + r) by (nonlinear_arith)
        requires
            base + r == m * q + t,
    ;
    lemma_fundamental_div_mod_converse_mod(t - base, m, -q, r);
}

/// Offsetting `base` by the wrapped distance to `t < m` lands on `t`.
proof fn lemma_wrap_inv(m: int, base: int, t: int)
    requires
        0 < m,
        0 <= t < m,
    ensures
        0 <= (t - base) % m < m,
        (base + (t - base) % m) % m == t,
{
    lemma_mod_bound(t - base, m);
    lemma_fundamental_div_mod(t - base, m);
    let q = (t - base) / m;
    let o = (t - base) % m;
    assert(base + o == (-q) * m + t) by (nonlinear_arith)
        requires
            t - base == m * q + o,
    ;
    lemma_fundamental_div_mod_converse_mod(base + o, m, -q, t);
}

/// Flipping bit `m` of a byte flips exactly that bit.
proof fn lemma_flip_bit(v: u8, m: u8, q: u8)
    by (bit_vector)
    requires
        m < 8,
        q < 8,
    ensures
        q == m ==> (((v ^ (1u8 << m)) >> q) & 1 == 1) == !((v >> q) & 1 == 1),
        q != m ==> (((v ^ (1u8 << m)) >> q) & 1 == 1) == ((v >> q) & 1 == 1),
{
}

/// Two bytes that agree on all eight bits are equal.
proof fn lemma_u8_bit_ext(a: u8, b: u8)
    by (bit_vector)
    requires
        ((a >> 0u8) & 1 == 1) == ((b >> 0u8) & 1 == 1),
        ((a >> 1u8) & 1 == 1) == ((b >> 1u8) & 1 == 1),
        ((a >> 2u8) & 1 == 1) == ((b >> 2u8) & 1 == 1),
        ((a >> 3u8) & 1 == 1) == ((b >> 3u8) & 1 == 1),
        ((a >> 4u8) & 1 == 1) == ((b >> 4u8) & 1 == 1),
        ((a >> 5u8) & 1 == 1) == ((b >> 5u8) & 1 == 1),
        ((a >> 6u8) & 1 == 1) == ((b >> 6u8) & 1 == 1),
        ((a >> 7u8) & 1 == 1) == ((b >> 7u8) & 1 == 1),
    ensures
        a == b,
{
}

/// A draw step never changes the framebuffer's length.
proof fn lemma_draw_upto_len(d: Seq<u8>, ram: Seq<u8>, i: int, vx: int, vy: int, k: nat)
    requires
        d.len() == 256,
        0 <= vx,
        0 <= vy,
    ensures
        draw_upto(d, ram, i, vx, vy, k).len() == 256,
    decreases k,
{
    if k > 0 {
        let k1 = (k - 1) as nat;
        lemma_draw_upto_len(d, ram, i, vx, vy, k1);
        let r = k1 as int / 8;
        let b = k1 as int % 8;
        lemma_mod_bound(vy + r, 32);
        lemma_mod_bound(vx + b, 64);
    }
}

/// What a partial draw does to each single pixel: a pixel the first
/// `k` steps have handled is the XOR of the old pixel with its sprite
/// bit; every other pixel is untouched.
proof fn lemma_draw_upto_pix(
    d: Seq<u8>,
    ram: Seq<u8>,
    i: int,
    vx: int,
    vy: int,
    k: nat,
    t: int,
    c: int,
)
    requires
        d.len() == 256,
        0 <= vx,
        0 <= vy,
        k <= 256,
        0 <= t < 32,
        0 <= c < 64,
    ensures
        pix(draw_upto(d, ram, i, vx, vy, k), t, c) == if drawn(vx, vy, k, t, c) {
            pix(d, t, c) != sprite_bit(ram, i, row_off(vy, t), col_off(vx, c))
        } else {
            pix(d, t, c)
        },
    decreases k,
{
    lemma_mod_bound(t - vy, 32);
    lemma_mod_bound(c - vx, 64);
    if k == 0 {
        return ;
    }
    let k1 = (k - 1) as nat;
    lemma_draw_upto_pix(d, ram, i, vx, vy, k1, t, c);
    lemma_draw_upto_len(d, ram, i, vx, vy, k1);
    let prev = draw_upto(d, ram, i, vx, vy, k1);
    let r1 = k1 as int / 8;
    let b1 = k1 as int % 8;
    lemma_mod_bound(k1 as int, 8);
    assert(0 <= r1 < 32) by (nonlinear_arith)
        requires
            0 <= k1 < 256,
            r1 == k1 as int / 8,
    ;
    let t1 = (vy + r1) % 32;
    let c1 = (vx + b1) % 64;
    lemma_mod_bound(vy + r1, 32);
    lemma_mod_bound(vx + b1, 64);
    lemma_wrap_off(32, vy, r1);
    lemma_wrap_off(64, vx, b1);
    assert(row_off(vy, t1) == r1);
    assert(col_off(vx, c1) == b1);
    let on = sprite_bit(ram, i, r1, b1);
    let j1 = t1 * 8 + c1 / 8;
    let sh1 = (7 - c1 % 8) as u8;
    let j = t * 8 + c / 8;
    let q = (7 - c % 8) as u8;
    assert(0 <= c1 / 8 < 8 && 0 <= c / 8 < 8 && 0 <= j1 < 256 && 0 <= j < 256);
    assert(8 * r1 + b1 == k1) by (nonlinear_arith)
        requires
            r1 == k1 as int / 8,
            b1 == k1 as int % 8,
            0 <= k1,
    ;
    if t == t1 && c == c1 {
        // This is exactly the pixel step `k - 1` handles; it was not
        // handled before.
        assert(drawn(vx, vy, k, t, c));
        assert(!drawn(vx, vy, k1, t, c));
        if on {
            lemma_flip_bit(prev[j1], sh1, q);
        }
    } else {
        // A different pixel: untouched by step `k - 1`.
        if on {
            if j == j1 {
                assert(t == t1 && c / 8 == c1 / 8) by (nonlinear_arith)
                    requires
                        t * 8 + c / 8 == t1 * 8 + c1 / 8,
                        0 <= c / 8 < 8,
                        0 <= c1 / 8 < 8,
                ;
                lemma_fundamental_div_mod(c, 8);
                lemma_fundamental_div_mod(c1, 8);
                assert(c % 8 != c1 % 8);
                assert(q != sh1);
                lemma_flip_bit(prev[j1], sh1, q);
            }
            assert(pix(draw_upto(d, ram, i, vx, vy, k), t, c) == pix(prev, t, c));
        }
        // The handled set gains only the pixel of step `k - 1`, which
        // is not this one.
        if drawn(vx, vy, k, t, c) != drawn(vx, vy, k1, t, c) {
            let ro = row_off(vy, t);
            let co = col_off(vx, c);
            assert(co < 8 && 8 * ro + co == k1);
            assert(ro == r1 && co == b1) by (nonlinear_arith)
                requires
                    8 * ro + co == 8 * r1 + b1,
                    0 <= co < 8,
                    0 <= b1 < 8,
            ;
            lemma_wrap_inv(32, vy, t);
            lemma_wrap_inv(64, vx, c);
            assert(t == (vy + ro) % 32 && c == (vx + co) % 64);
            assert(false);
        }
    }
}

/// Two framebuffers that agree on every pixel are equal.
proof fn lemma_pix_ext(a: Seq<u8>, b: Seq<u8>)
    requires
        a.len() == 256,
        b.len() == 256,
        forall|t: int, c: int|
            0 <= t < 32 && 0 <= c < 64 ==> pix(a, t, c) == pix(b, t, c),
    ensures
        a == b,
{
    assert(forall|u: int, m: int|
        0 <= u < 8 && 0 <= m < 8 ==> #[trigger] ((u * 8 + m) / 8) == u && (u * 8 + m) % 8
            == m) by (nonlinear_arith);
    assert forall|j: int| 0 <= j < 256 implies a[j] == b[j] by {
        let t = j / 8;
        let base = (j % 8) * 8;
        lemma_fundamental_div_mod(j, 8);
        lemma_mod_bound(j, 8);
        assert(t * 8 + (base + 0) / 8 == j && t * 8 + (base + 1) / 8 == j && t * 8 + (base + 2) / 8
            == j && t * 8 + (base + 3) / 8 == j && t * 8 + (base + 4) / 8 == j && t * 8 + (base + 5)
            / 8 == j && t * 8 + (base + 6) / 8 == j && t * 8 + (base + 7) / 8 == j);
        assert(pix(a, t, base + 0) == pix(b, t, base + 0));
        assert(pix(a, t, base + 1) == pix(b, t, base + 1));
        assert(pix(a, t, base + 2) == pix(b, t, base + 2));
        assert(pix(a, t, base + 3) == pix(b, t, base + 3));
        assert(pix(a, t, base + 4) == pix(b, t, base + 4));
        assert(pix(a, t, base + 5) == pix(b, t, base + 5));
        assert(pix(a, t, base + 6) == pix(b, t, base + 6));
        assert(pix(a, t, base + 7) == pix(b, t, base + 7));
        lemma_u8_bit_ext(a[j], b[j]);
    }
    assert(a =~= b);
}

/// The collision flag of a draw, characterized against the framebuffer
/// as it stood before the draw began: some sprite bit that is on hits a
/// pixel that was already lit.
proof fn lemma_coll_upto_iff(d: Seq<u8>, ram: Seq<u8>, i: int, vx: int, vy: int, k: nat)
    requires
        d.len() == 256,
        0 <= vx,
        0 <= vy,
        k <= 256,
    ensures
        coll_upto(d, ram, i, vx, vy, k) <==> exists|r: int, b: int|
            0 <= r && 0 <= b < 8 && 8 * r + b < k && sprite_bit(ram, i, r, b) && pix(
                d,
                (vy + r) % 32,
                (vx + b) % 64,
            ),
    decreases k,
{
    if k == 0 {
        return ;
    }
    let k1 = (k - 1) as nat;
    lemma_coll_upto_iff(d, ram, i, vx, vy, k1);
    let prev = draw_upto(d, ram, i, vx, vy, k1);
    let r1 = k1 as int / 8;
    let b1 = k1 as int % 8;
    lemma_mod_bound(k1 as int, 8);
    assert(0 <= r1 < 32) by (nonlinear_arith)
        requires
            0 <= k1 < 256,
            r1 == k1 as int / 8,
    ;
    assert(8 * r1 + b1 == k1) by (nonlinear_arith)
        requires
            r1 == k1 as int / 8,
            b1 == k1 as int % 8,
            0 <= k1,
    ;
    let t1 = (vy + r1) % 32;
    let c1 = (vx + b1) % 64;
    lemma_mod_bound(vy + r1, 32);
    lemma_mod_bound(vx + b1, 64);
    // Step `k - 1`'s own pixel is still as the draw found it.
    lemma_draw_upto_pix(d, ram, i, vx, vy, k1, t1, c1);
    lemma_wrap_off(32, vy, r1);
    lemma_wrap_off(64, vx, b1);
    assert(pix(prev, t1, c1) == pix(d, t1, c1));
    if coll_upto(d, ram, i, vx, vy, k) {
        if coll_upto(d, ram, i, vx, vy, k1) {
            let (r, b) = choose|r: int, b: int|
                0 <= r && 0 <= b < 8 && 8 * r + b < k1 && sprite_bit(ram, i, r, b) && pix(
                    d,
                    (vy + r) % 32,
                    (vx + b) % 64,
                );
            assert(0 <= r && 0 <= b < 8 && 8 * r + b < k && sprite_bit(ram, i, r, b) && pix(
                d,
                (vy + r) % 32,
                (vx + b) % 64,
            ));
        } else {
            assert(sprite_bit(ram, i, r1, b1) && pix(d, t1, c1));
            assert(0 <= r1 && 0 <= b1 < 8 && 8 * r1 + b1 < k && sprite_bit(ram, i, r1, b1) && pix(
                d,
                (vy + r1) % 32,
                (vx + b1) % 64,
            ));
        }
    } else {
        if exists|r: int, b: int|
            0 <= r && 0 <= b < 8 && 8 * r + b < k && sprite_bit(ram, i, r, b) && pix(
                d,
                (vy + r) % 32,
                (vx + b) % 64,
            ) {
            let (r, b) = choose|r: int, b: int|
                0 <= r && 0 <= b < 8 && 8 * r + b < k && sprite_bit(ram, i, r, b) && pix(
                    d,
                    (vy + r) % 32,
                    (vx + b) % 64,
                );
            if 8 * r + b < k1 {
                assert(coll_upto(d, ram, i, vx, vy, k1));
            } else {
                assert(r == r1 && b == b1) by (nonlinear_arith)
                    requires
                        8 * r + b == 8 * r1 + b1,
                        0 <= b < 8,
                        0 <= b1 < 8,
                ;
            }
            assert(false);
        }
    }
}

/// Draw idempotence under XOR: drawing the same sprite twice at the
/// same location restores the framebuffer exactly as it was before the
/// first draw, and the second draw reports a collision exactly when
/// some lit sprite bit fell on a pixel that was dark before the first
/// draw (every such pixel is what the first draw turned on).
pub proof fn lemma_draw_idempotent(d: Seq<u8>, ram: Seq<u8>, i: int, vx: int, vy: int, n: int)
    requires
        d.len() == 256,
        0 <= vx,
        0 <= vy,
        0 <= n < 16,
    ensures
        draw_upto(
            draw_upto(d, ram, i, vx, vy, (8 * n) as nat),
            ram,
            i,
            vx,
            vy,
            (8 * n) as nat,
        ) == d,
        coll_upto(draw_upto(d, ram, i, vx, vy, (8 * n) as nat), ram, i, vx, vy, (8 * n) as nat)
            <==> exists|r: int, b: int|
            0 <= r < n && 0 <= b < 8 && sprite_bit(ram, i, r, b) && !pix(
                d,
                (vy + r) % 32,
                (vx + b) % 64,
            ),
{
    let k = (8 * n) as nat;
    let d1 = draw_upto(d, ram, i, vx, vy, k);
    let d2 = draw_upto(d1, ram, i, vx, vy, k);
    lemma_draw_upto_len(d, ram, i, vx, vy, k);
    lemma_draw_upto_len(d1, ram, i, vx, vy, k);
    assert forall|t: int, c: int| 0 <= t < 32 && 0 <= c < 64 implies pix(d2, t, c) == pix(
        d,
        t,
        c,
    ) by {
        lemma_draw_upto_pix(d, ram, i, vx, vy, k, t, c);
        lemma_draw_upto_pix(d1, ram, i, vx, vy, k, t, c);
    }
    lemma_pix_ext(d2, d);
    // Each sprite-step pixel reads, in `d1`, as the XOR the first draw
    // left there.
    assert forall|r: int, b: int| 0 <= r < n && 0 <= b < 8 implies pix(
        d1,
        (vy + r) % 32,
        (vx + b) % 64,
    ) == (pix(d, (vy + r) % 32, (vx + b) % 64) != sprite_bit(ram, i, r, b)) by {
        lemma_mod_bound(vy + r, 32);
        lemma_mod_bound(vx + b, 64);
        lemma_draw_upto_pix(d, ram, i, vx, vy, k, (vy + r) % 32, (vx + b) % 64);
        lemma_wrap_off(32, vy, r);
        lemma_wrap_off(64, vx, b);
        assert(8 * r + b < k) by (nonlinear_arith)
            requires
                0 <= r < n,
                0 <= b < 8,
                k == 8 * n,
        ;
    }
    lemma_coll_upto_iff(d1, ram, i, vx, vy, k);
    if coll_upto(d1, ram, i, vx, vy, k) {
        let (r, b) = choose|r: int, b: int|
            0 <= r && 0 <= b < 8 && 8 * r + b < k && sprite_bit(ram, i, r, b) && pix(
                d1,
                (vy + r) % 32,
                (vx + b) % 64,
            );
        assert(r < n) by (nonlinear_arith)
            requires
                8 * r + b < 8 * n,
                0 <= b,
                0 <= r,
        ;
        assert(0 <= r < n && 0 <= b < 8 && sprite_bit(ram, i, r, b) && !pix(
            d,
            (vy + r) % 32,
            (vx + b) % 64,
        ));
    }
    if exists|r: int, b: int|
        0 <= r < n && 0 <= b < 8 && sprite_bit(ram, i, r, b) && !pix(
            d,
            (vy + r) % 32,
            (vx + b) % 64,
        ) {
        let (r, b) = choose|r: int, b: int|
            0 <= r < n && 0 <= b < 8 && sprite_bit(ram, i, r, b) && !pix(
                d,
                (vy + r) % 32,
                (vx + b) % 64,
            );
        assert(8 * r + b < k) by (nonlinear_arith)
            requires
                0 <= r < n,
                0 <= b < 8,
                k == 8 * n,
        ;
        assert(0 <= r && 0 <= b < 8 && 8 * r + b < k && sprite_bit(ram, i, r, b) && pix(
            d1,
            (vy + r) % 32,
            (vx + b) % 64,
        ));
        assert(coll_upto(d1, ram, i, vx, vy, k));
    }
}

} // verus!
