//! Proved properties of the reverb core: the impulse response of a single
//! delay line, the shape of the triangular tap envelope, and the decay of
//! the feedback network under silence.

use crate::num::div_t;
use crate::reverb::{
    lemma_div_t_bound, lemma_wnum_range, lemma_wsum_bound, mix_value, out_value, step_lines,
    taps_of, wnum, wsum, RingView,
};
use vstd::arithmetic::div_mod::{
    lemma_add_mod_noop, lemma_fundamental_div_mod, lemma_mod_division_less_than_divisor,
    lemma_small_mod,
};
use vstd::prelude::*;

verus! {

/// The signal a single impulse makes: `v` at step zero, silence after.
pub open spec fn impulse_input(v: int, t: int) -> int {
    if t == 0 {
        v
    } else {
        0
    }
}

/// The state of a zero-filled delay line of length `l` after `t` steps of
/// being fed the impulse signal, one read and one write per step.
pub open spec fn impulse_state(l: int, v: int, t: nat) -> RingView
    decreases t,
{
    if t == 0 {
        RingView::fresh(l)
    } else {
        impulse_state(l, v, (t - 1) as nat).fed(impulse_input(v, t - 1))
    }
}

/// What the read at step `t` of the impulse run returns.
pub open spec fn impulse_out(l: int, v: int, t: nat) -> int {
    impulse_state(l, v, t).tap()
}

/// The full state of the impulse run: the impulse sits in cell 0 from the
/// write at step 0 until the write cursor laps back over it at step `l`;
/// every other cell stays zero; the cursors walk around the line in step.
proof fn lemma_impulse_state(l: int, v: int, t: nat)
    requires
        l >= 2,
    ensures
        impulse_state(l, v, t).cells.len() == l,
        impulse_state(l, v, t).read_pos == (1 + t as int) % l,
        impulse_state(l, v, t).write_pos == (t as int) % l,
        forall|i: int| 1 <= i < l ==> impulse_state(l, v, t).cells[i] == 0,
        impulse_state(l, v, t).cells[0] == if 1 <= t <= l {
            v
        } else {
            0
        },
    decreases t,
{
    let ti = t as int;
    if t == 0 {
        lemma_small_mod(1, l as nat);
        lemma_small_mod(0, l as nat);
    } else {
        let p = impulse_state(l, v, (t - 1) as nat);
        lemma_impulse_state(l, v, (t - 1) as nat);
        // Cursor arithmetic: advancing by one commutes with the wraparound.
        lemma_small_mod(1, l as nat);
        lemma_add_mod_noop(1 + (ti - 1), 1, l);
        lemma_add_mod_noop(ti - 1, 1, l);
        assert((((1 + (ti - 1)) % l) + (1int % l)) % l == (1 + ti) % l);
        assert(p.fed(impulse_input(v, ti - 1)).read_pos == (1 + ti) % l);
        assert(p.fed(impulse_input(v, ti - 1)).write_pos == ti % l);
        // Cell contents: the write lands at (t - 1) % l.
        lemma_mod_division_less_than_divisor(ti - 1, l);
        vstd::arithmetic::div_mod::lemma_mod_self_0(l);
        if t == 1 {
            lemma_small_mod(0, l as nat);
        } else {
            if (ti - 1) % l == 0 {
                // The write cursor has lapped: t - 1 is a positive multiple
                // of l, so cell 0 is overwritten with silence.
                lemma_fundamental_div_mod(ti - 1, l);
                assert(ti - 1 == l * ((ti - 1) / l));
                if (ti - 1) / l <= 0 {
                    assert(ti - 1 <= 0) by (nonlinear_arith)
                        requires ti - 1 == l * ((ti - 1) / l), l >= 2, (ti - 1) / l <= 0;
                }
                assert(ti - 1 >= l) by (nonlinear_arith)
                    requires ti - 1 == l * ((ti - 1) / l), l >= 2, (ti - 1) / l >= 1;
            } else {
                if 1 <= ti - 1 <= l - 1 {
                    lemma_small_mod((t - 1) as nat, l as nat);
                }
            }
        }
    }
}

/// A delay line of length `l`, starting zero-filled with its read cursor
/// one ahead of its write cursor, fed an impulse `v` and then silence,
/// reproduces the impulse exactly once, `l - 1` steps after it went in, and
/// reads zero at every other step, forever.
pub proof fn lemma_impulse_response(l: int, v: int, t: nat)
    requires
        l >= 2,
    ensures
        impulse_out(l, v, t) == if t == l - 1 {
            v
        } else {
            0
        },
{
    lemma_impulse_state(l, v, t);
    let st = impulse_state(l, v, t);
    let ti = t as int;
    lemma_mod_division_less_than_divisor(1 + ti, l);
    if st.read_pos == 0 {
        lemma_fundamental_div_mod(1 + ti, l);
        assert(1 + ti == l * ((1 + ti) / l));
        if (1 + ti) / l <= 0 {
            assert(1 + ti <= 0) by (nonlinear_arith)
                requires 1 + ti == l * ((1 + ti) / l), l >= 2, (1 + ti) / l <= 0;
        }
        if (1 + ti) / l == 1 {
            assert(ti == l - 1) by (nonlinear_arith)
                requires 1 + ti == l * ((1 + ti) / l), (1 + ti) / l == 1;
        } else {
            assert(1 + ti >= 2 * l) by (nonlinear_arith)
                requires 1 + ti == l * ((1 + ti) / l), l >= 2, (1 + ti) / l >= 2;
        }
    } else {
        if ti == l - 1 {
            assert(1 + ti == l);
            assert(l % l == 0) by {
                vstd::arithmetic::div_mod::lemma_mod_self_0(l);
            }
        }
    }
}

/// The triangular tap envelope: the first line gets weight zero, weights
/// rise strictly to the maximum at the midpoint `m = n / 3` — one third of
/// the way through the lines — and fall strictly beyond it. Weights are
/// numerators over the common denominator `5 * m`, so the peak `3 * m`
/// stands for `0.6`.
pub proof fn lemma_triangular_weights(n: int, m: int)
    requires
        3 <= n,
        m == n / 3,
    ensures
        wnum(0, m) == 0,
        wnum(m, m) == 3 * m,
        forall|x: int| 0 <= x < n ==> #[trigger] wnum(x, m) <= wnum(m, m),
        forall|x: int| 0 <= x < m ==> #[trigger] wnum(x, m) < wnum(x + 1, m),
        forall|x: int| m <= x < n - 1 ==> #[trigger] wnum(x + 1, m) < wnum(x, m),
{
    vstd::arithmetic::div_mod::lemma_div_is_ordered(3, n, 3);
    assert(m >= 1);
}

/// The engine state after `t` steps of silence.
pub open spec fn silent_run(lines: Seq<RingView>, t: nat) -> Seq<RingView>
    decreases t,
{
    if t == 0 {
        lines
    } else {
        step_lines(silent_run(lines, (t - 1) as nat), 0)
    }
}

/// Structural health and a magnitude bound on every line of an engine
/// state.
pub open spec fn lines_wf_bounded(lines: Seq<RingView>, b: int) -> bool {
    &&& 6 <= lines.len() <= 9
    &&& forall|i: int|
        0 <= i < lines.len() ==> (#[trigger] lines[i]).wf() && lines[i].bounded(b)
}

/// One step of silence: the circulating mix shrinks to at most nine tenths
/// of the stored bound, every stored sample stays within the bound, and the
/// wet output is at most a hundredth of it.
pub proof fn lemma_silence_step(lines: Seq<RingView>, b: int)
    requires
        b >= 0,
        lines_wf_bounded(lines, b),
    ensures
        -(b - b / 10) <= mix_value(lines, 0) <= b - b / 10,
        lines_wf_bounded(step_lines(lines, 0), b),
        -b <= 100 * out_value(lines, 0) <= b,
{
    let n = lines.len() as int;
    let m = n / 3;
    let taps = taps_of(lines);
    lemma_wnum_range(n, m);
    assert forall|i: int| 0 <= i < taps.len() implies -b <= #[trigger] taps[i] <= b by {
        assert(lines[i].wf());
        assert(lines[i].bounded(b));
    }
    lemma_wsum_bound(taps, m, b);
    let c = b - b / 10;
    vstd::arithmetic::div_mod::lemma_div_pos_is_pos(b, 10);
    assert(10 * (b / 10) <= b) by {
        lemma_fundamental_div_mod(b, 10);
        vstd::arithmetic::div_mod::lemma_mod_division_less_than_divisor(b, 10);
    }
    assert(9 * n * b <= c * (5 * m * n) && -(c * (5 * m * n)) <= -9 * n * b)
        by (nonlinear_arith)
        requires
            6 <= n <= 9,
            m == n / 3,
            b >= 0,
            c >= 0,
            10 * c >= 9 * b,
    ;
    assert(5 * m * n >= 60) by (nonlinear_arith)
        requires m >= 2, n >= 6;
    lemma_div_t_bound(wsum(taps, m), 5 * m * n, c);
    assert(mix_value(lines, 0) == div_t(wsum(taps, m), 5 * m * n));
    // The bound survives the write: the mix is within c <= b.
    assert forall|i: int| 0 <= i < lines.len() implies
        (#[trigger] step_lines(lines, 0)[i]).wf() && step_lines(lines, 0)[i].bounded(b) by {
        assert(lines[i].wf());
        assert(lines[i].bounded(b));
        lemma_mod_division_less_than_divisor(lines[i].read_pos + 1, lines[i].len());
        lemma_mod_division_less_than_divisor(lines[i].write_pos + 1, lines[i].len());
        assert(step_lines(lines, 0)[i] == lines[i].fed(mix_value(lines, 0)));
    }
    // The wet output is the mix over one hundred.
    let mix = mix_value(lines, 0);
    if mix >= 0 {
        lemma_fundamental_div_mod(mix, 100);
        lemma_mod_division_less_than_divisor(mix, 100);
        vstd::arithmetic::div_mod::lemma_div_pos_is_pos(mix, 100);
    } else {
        lemma_fundamental_div_mod(-mix, 100);
        lemma_mod_division_less_than_divisor(-mix, 100);
        vstd::arithmetic::div_mod::lemma_div_pos_is_pos(-mix, 100);
    }
}

/// Silence in, silence toward: however many steps of zero input the engine
/// runs, every stored sample stays within the starting bound and every wet
/// output stays within a hundredth of it. Together with
/// [`lemma_silence_step`], each step also shrinks the freshly written
/// feedback value to at most nine tenths of the bound, so the circulating
/// energy can only decay.
pub proof fn lemma_silence_run(lines: Seq<RingView>, b: int, t: nat)
    requires
        b >= 0,
        lines_wf_bounded(lines, b),
    ensures
        lines_wf_bounded(silent_run(lines, t), b),
        -b <= 100 * out_value(silent_run(lines, t), 0) <= b,
    decreases t,
{
    if t == 0 {
        lemma_silence_step(lines, b);
    } else {
        lemma_silence_run(lines, b, (t - 1) as nat);
        lemma_silence_step(silent_run(lines, (t - 1) as nat), b);
        lemma_silence_step(silent_run(lines, t), b);
    }
}

/// The cell a line's write cursor reaches after `s` further steps.
pub open spec fn swept(l0: RingView, s: int) -> int {
    (l0.write_pos + s) % l0.len()
}

/// During a silent run every cell the write cursor has passed holds a
/// freshly written mix, and every such mix is within `b - b / 10`.
proof fn lemma_silence_sweep_aux(lines: Seq<RingView>, b: int, t: nat)
    requires
        b >= 0,
        lines_wf_bounded(lines, b),
    ensures
        silent_run(lines, t).len() == lines.len(),
        lines_wf_bounded(silent_run(lines, t), b),
        forall|j: int| 0 <= j < lines.len() ==> (#[trigger] silent_run(lines, t)[j]).len()
            == lines[j].len(),
        forall|j: int| 0 <= j < lines.len() ==> (#[trigger] silent_run(lines, t)[j]).write_pos
            == swept(lines[j], t as int),
        forall|j: int, s: int|
            0 <= j < lines.len() && 0 <= s < t ==> -(b - b / 10) <= silent_run(
                lines,
                t,
            )[j].cells[#[trigger] swept(lines[j], s)] <= b - b / 10,
    decreases t,
{
    if t == 0 {
        lemma_silence_run(lines, b, 0);
        assert forall|j: int| 0 <= j < lines.len() implies (#[trigger] silent_run(
            lines,
            0,
        )[j]).write_pos == swept(lines[j], 0) by {
            assert(lines[j].wf());
            lemma_small_mod(lines[j].write_pos as nat, lines[j].len() as nat);
        }
    } else {
        let prev = silent_run(lines, (t - 1) as nat);
        lemma_silence_sweep_aux(lines, b, (t - 1) as nat);
        lemma_silence_step(prev, b);
        let mix = mix_value(prev, 0);
        assert forall|j: int| 0 <= j < lines.len() implies (#[trigger] silent_run(
            lines,
            t,
        )[j]).write_pos == swept(lines[j], t as int) by {
            assert(lines[j].wf());
            let l = lines[j].len();
            assert(silent_run(lines, t)[j] == prev[j].fed(mix));
            // ((w + (t - 1)) % l + 1) % l == (w + t) % l
            lemma_small_mod(1, l as nat);
            lemma_add_mod_noop(lines[j].write_pos + (t - 1), 1, l);
        }
        assert forall|j: int, s: int|
            0 <= j < lines.len() && 0 <= s < t implies -(b - b / 10) <= silent_run(
                lines,
                t,
            )[j].cells[#[trigger] swept(lines[j], s)] <= b - b / 10 by {
            assert(lines[j].wf());
            assert(prev[j].wf());
            lemma_mod_division_less_than_divisor(lines[j].write_pos + s, lines[j].len());
            assert(silent_run(lines, t)[j] == prev[j].fed(mix));
            if s == t - 1 {
                assert(swept(lines[j], s) == prev[j].write_pos);
            } else {
                if swept(lines[j], s) != prev[j].write_pos {
                    assert(silent_run(lines, t)[j].cells[swept(lines[j], s)]
                        == prev[j].cells[swept(lines[j], s)]);
                }
            }
        }
    }
}

/// Silence actually drains the network: once the write cursor of every
/// line has completed a full lap under zero input — `t` at least the
/// longest line's length — every stored sample is within `b - b / 10`, a
/// tenth below where it started. Applied lap after lap, the stored energy
/// and with it the wet output decay geometrically toward silence.
pub proof fn lemma_silence_sweep(lines: Seq<RingView>, b: int, t: nat)
    requires
        b >= 0,
        lines_wf_bounded(lines, b),
        forall|j: int| 0 <= j < lines.len() ==> (#[trigger] lines[j]).len() <= t,
    ensures
        lines_wf_bounded(silent_run(lines, t), b - b / 10),
{
    lemma_silence_sweep_aux(lines, b, t);
    vstd::arithmetic::div_mod::lemma_div_pos_is_pos(b, 10);
    assert forall|j: int|
        0 <= j < lines.len() implies (#[trigger] silent_run(lines, t)[j]).bounded(
        b - b / 10,
    ) by {
        assert(lines[j].wf());
        let l = lines[j].len();
        let w0 = lines[j].write_pos;
        assert forall|i: int|
            0 <= i < silent_run(lines, t)[j].len() implies -(b - b / 10) <= #[trigger] silent_run(
            lines,
            t,
        )[j].cells[i] <= b - b / 10 by {
            // i is reached after s = (i - w0) % l steps, and s < l <= t.
            let s = (i - w0) % l;
            lemma_mod_division_less_than_divisor(i - w0, l);
            vstd::arithmetic::div_mod::lemma_add_mod_noop_right(w0, i - w0, l);
            lemma_small_mod(i as nat, l as nat);
            assert(swept(lines[j], s) == i);
            assert(0 <= s < t);
        }
    }
}

} // verus!
