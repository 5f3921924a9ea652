use vstd::prelude::*;
use vstd::pervasive::VecAdditionalExecFns;
use vstd::string::StrSliceExecFns;
use vstd::string::StringSliceAdditionalSpecFns;

use crate::cpu::instruction::{
    has_placeholder, is_open_placeholder, jump_ok, jumps_paired, program_wf, Instruction,
};
use crate::errors::CompileError;

verus! {

// ---------------------------------------------------------------------------
// The compilation algorithm as a mathematical function.
//
// Compilation is a single left-to-right scan over the source bytes.  Exactly
// eight byte values are significant; every other byte is ignored.  The scan
// keeps an accumulator of already-emitted instructions and folds one byte at
// a time into it.
// ---------------------------------------------------------------------------

/// Fold a pointer move of `d` into the accumulator: fuse it into a trailing
/// `MovePointer`, dropping that instruction when the fused amount cancels to
/// zero, and append a fresh instruction otherwise.
pub open spec fn fuse_move(acc: Seq<Instruction>, d: int) -> Seq<Instruction> {
    if acc.len() > 0 && (acc.last() matches Instruction::MovePointer(k)) {
        let k = acc.last()->MovePointer_0;
        if k as int + d == 0 {
            acc.drop_last()
        } else {
            acc.update(acc.len() - 1, Instruction::MovePointer((k as int + d) as isize))
        }
    } else {
        acc.push(Instruction::MovePointer(d as isize))
    }
}

/// Fold a cell change of `d` into the accumulator, fusing exactly as
/// `fuse_move` does but over `AddToCell`.
pub open spec fn fuse_add(acc: Seq<Instruction>, d: int) -> Seq<Instruction> {
    if acc.len() > 0 && (acc.last() matches Instruction::AddToCell(k)) {
        let k = acc.last()->AddToCell_0;
        if k as int + d == 0 {
            acc.drop_last()
        } else {
            acc.update(acc.len() - 1, Instruction::AddToCell((k as int + d) as isize))
        }
    } else {
        acc.push(Instruction::AddToCell(d as isize))
    }
}

/// The position of the nearest open placeholder at or below `i`, or `-1` if
/// none exists.  This backward search is the whole bracket-matching story:
/// the nearest placeholder below a loop close is always its innermost
/// unmatched open.
pub open spec fn find_open(acc: Seq<Instruction>, i: int) -> int
    decreases i + 1,
{
    if i < 0 {
        -1
    } else if is_open_placeholder(acc[i]) {
        i
    } else {
        find_open(acc, i - 1)
    }
}

/// Rewrite a freshly closed zeroing loop.  If the three most recent
/// instructions are exactly a one-step loop that adds `1` or `-1` to the
/// current cell, the whole loop is a "set cell to zero" idiom and collapses
/// to a single `ClearCell`.
pub open spec fn peephole(v: Seq<Instruction>) -> Seq<Instruction> {
    if v.len() >= 3 && v[v.len() - 3] == Instruction::Jump(2isize) && (v[v.len() - 2]
        == Instruction::AddToCell(1isize) || v[v.len() - 2] == Instruction::AddToCell(
        (-1) as isize,
    )) && v[v.len() - 1] == Instruction::Jump((-2) as isize) {
        v.take(v.len() - 3).push(Instruction::ClearCell)
    } else {
        v
    }
}

/// Fold a loop close into the accumulator.  The nearest placeholder is the
/// matching open: an empty loop is elided outright; otherwise the open is
/// patched with the forward distance to the new close, the close is appended
/// with the negated distance, and the zeroing-loop rewrite is applied.  With
/// no placeholder to match, the close is unmatched.
pub open spec fn close_loop(acc: Seq<Instruction>) -> Result<Seq<Instruction>, CompileError> {
    let p = find_open(acc, acc.len() - 1);
    if p < 0 {
        Err(CompileError::UnmatchedClose)
    } else if p == acc.len() - 1 {
        Ok(acc.drop_last())
    } else {
        let l = acc.len() as int;
        let patched = acc.update(p, Instruction::Jump((l - p) as isize)).push(
            Instruction::Jump((p - l) as isize),
        );
        Ok(peephole(patched))
    }
}

/// Fold one source byte into the accumulator.
pub open spec fn scan_byte(acc: Seq<Instruction>, b: u8) -> Result<
    Seq<Instruction>,
    CompileError,
> {
    if b == 62 {  // '>'
        Ok(fuse_move(acc, 1))
    } else if b == 60 {  // '<'
        Ok(fuse_move(acc, -1))
    } else if b == 43 {  // '+'
        Ok(fuse_add(acc, 1))
    } else if b == 45 {  // '-'
        Ok(fuse_add(acc, -1))
    } else if b == 91 {  // '['
        Ok(acc.push(Instruction::Jump(0isize)))
    } else if b == 93 {  // ']'
        close_loop(acc)
    } else if b == 46 {  // '.'
        Ok(acc.push(Instruction::Print))
    } else if b == 44 {  // ','
        Ok(acc.push(Instruction::Read))
    } else {
        Ok(acc)
    }
}

/// The whole scan, folded over the source from the left.
pub open spec fn scan(src: Seq<u8>) -> Result<Seq<Instruction>, CompileError>
    decreases src.len(),
{
    if src.len() == 0 {
        Ok(Seq::empty())
    } else {
        match scan(src.drop_last()) {
            Ok(acc) => scan_byte(acc, src.last()),
            Err(e) => Err(e),
        }
    }
}

/// What `compile` returns, as a function of the source bytes: the scan's
/// result, except that a surviving placeholder means some loop was never
/// closed.
pub open spec fn compile_spec(src: Seq<u8>) -> Result<Seq<Instruction>, CompileError> {
    match scan(src) {
        Ok(code) => if has_placeholder(code) {
            Err(CompileError::UnmatchedOpen)
        } else {
            Ok(code)
        },
        Err(e) => Err(e),
    }
}

// ---------------------------------------------------------------------------
// Facts about the scan.
// ---------------------------------------------------------------------------

/// Every `MovePointer`, `AddToCell` and `Jump` magnitude in `ins` lies within
/// `b` in absolute value.
pub open spec fn param_bounded(ins: Instruction, b: int) -> bool {
    match ins {
        Instruction::MovePointer(d) => -b <= d as int <= b,
        Instruction::AddToCell(d) => -b <= d as int <= b,
        Instruction::Jump(k) => -b <= k as int <= b,
        _ => true,
    }
}

/// All instruction parameters in `code` lie within `b` in absolute value.
pub open spec fn params_bounded(code: Seq<Instruction>, b: int) -> bool {
    forall|i: int| 0 <= i < code.len() ==> param_bounded(#[trigger] code[i], b)
}

/// `find_open` returns either `-1`, with no placeholder at or below `i`, or
/// the position of the nearest placeholder at or below `i`.
proof fn lemma_find_open_props(acc: Seq<Instruction>, i: int)
    requires
        -1 <= i < acc.len(),
    ensures
        ({
            let p = find_open(acc, i);
            &&& -1 <= p <= i
            &&& p >= 0 ==> is_open_placeholder(acc[p])
            &&& forall|j: int| p < j <= i ==> !is_open_placeholder(#[trigger] acc[j])
        }),
    decreases i + 1,
{
    if i >= 0 && !is_open_placeholder(acc[i]) {
        lemma_find_open_props(acc, i - 1);
    }
}

/// Once a prefix of the source fails to scan, the whole source fails the
/// same way.
proof fn lemma_scan_err_extends(src: Seq<u8>, i: int)
    requires
        0 <= i <= src.len(),
        scan(src.take(i)) is Err,
    ensures
        scan(src) == scan(src.take(i)),
    decreases src.len() - i,
{
    if i < src.len() {
        assert(src.take(i + 1).drop_last() =~= src.take(i));
        assert(src.take(i + 1).len() == i + 1);
        lemma_scan_err_extends(src, i + 1);
    } else {
        assert(src.take(i) =~= src);
    }
}

/// The position a matched jump points at holds a matched jump itself, so a
/// matched jump never points at a placeholder or at a non-jump.
proof fn lemma_partner_is_matched_jump(acc: Seq<Instruction>, i: int)
    requires
        jumps_paired(acc),
        0 <= i < acc.len(),
    ensures
        (match acc[i] {
            Instruction::Jump(k) => k != 0 ==> {
                let t = i + (k as int);
                &&& 0 <= t < acc.len()
                &&& acc[t] matches Instruction::Jump(k2) && k2 as int == -(k as int)
                &&& !is_open_placeholder(acc[t])
                &&& !(acc[t] matches Instruction::MovePointer(_))
                &&& !(acc[t] matches Instruction::AddToCell(_))
            },
            _ => true,
        }),
{
    assert(jump_ok(acc, i));
    if let Instruction::Jump(k) = acc[i] {
        if k != 0 {
            let t = i + (k as int);
            assert(acc[t] matches Instruction::Jump(k2) && k2 as int == -(k as int));
            assert(!is_open_placeholder(acc[t]));
        }
    }
}

/// Appending an instruction that is no matched jump keeps every jump paired.
proof fn lemma_push_keeps_paired(acc: Seq<Instruction>, x: Instruction)
    requires
        jumps_paired(acc),
        (x matches Instruction::Jump(k)) ==> x == Instruction::Jump(0isize),
    ensures
        jumps_paired(acc.push(x)),
{
    let r = acc.push(x);
    assert forall|i: int| 0 <= i < r.len() implies #[trigger] jump_ok(r, i) by {
        if i < acc.len() {
            assert(jump_ok(acc, i));
            assert(r[i] == acc[i]);
            if let Instruction::Jump(k) = acc[i] {
                if k != 0 {
                    assert(r[i + (k as int)] == acc[i + (k as int)]);
                }
            }
        }
    }
}

/// Replacing a trailing non-jump with another non-jump keeps every jump
/// paired: no jump can point at the last position, because a matched jump's
/// partner is itself a jump.
proof fn lemma_update_last_keeps_paired(acc: Seq<Instruction>, x: Instruction)
    requires
        jumps_paired(acc),
        acc.len() > 0,
        !(acc.last() matches Instruction::Jump(_)),
        !(x matches Instruction::Jump(_)),
    ensures
        jumps_paired(acc.update(acc.len() - 1, x)),
{
    let l = acc.len() - 1;
    let r = acc.update(l, x);
    assert forall|i: int| 0 <= i < r.len() implies #[trigger] jump_ok(r, i) by {
        if i < l {
            assert(jump_ok(acc, i));
            if let Instruction::Jump(k) = acc[i] {
                if k != 0 {
                    let t = i + (k as int);
                    lemma_partner_is_matched_jump(acc, i);
                    assert(t != l);
                    assert(r[t] == acc[t]);
                }
            }
        }
    }
}

/// Dropping a trailing instruction that is no matched jump keeps every jump
/// paired, for the same reason as above: nothing pointed at it.
proof fn lemma_drop_last_keeps_paired(acc: Seq<Instruction>)
    requires
        jumps_paired(acc),
        acc.len() > 0,
        (acc.last() matches Instruction::Jump(k)) ==> acc.last() == Instruction::Jump(0isize),
    ensures
        jumps_paired(acc.drop_last()),
{
    let l = acc.len() - 1;
    let r = acc.drop_last();
    assert forall|i: int| 0 <= i < r.len() implies #[trigger] jump_ok(r, i) by {
        assert(jump_ok(acc, i));
        assert(r[i] == acc[i]);
        if let Instruction::Jump(k) = acc[i] {
            if k != 0 {
                let t = i + (k as int);
                lemma_partner_is_matched_jump(acc, i);
                assert(t != l);
                assert(r[t] == acc[t]);
            }
        }
    }
}

/// Closing a loop keeps every jump paired, keeps all parameters bounded, and
/// grows the accumulator by at most one instruction.
proof fn lemma_close_keeps_wf(acc: Seq<Instruction>, b: int)
    requires
        jumps_paired(acc),
        params_bounded(acc, b),
        acc.len() <= b,
        b + 1 <= isize::MAX as int,
        0 <= b,
    ensures
        close_loop(acc) matches Ok(c) ==> {
            &&& jumps_paired(c)
            &&& params_bounded(c, b + 1)
            &&& c.len() <= acc.len() + 1
        },
{
    let l = acc.len() as int;
    if l == 0 {
        return ;
    }
    lemma_find_open_props(acc, l - 1);
    let p = find_open(acc, l - 1);
    if p < 0 {
        return ;
    }
    if p == l - 1 {
        lemma_drop_last_keeps_paired(acc);
        return ;
    }
    // The open at `p` is patched and a close appended; the pair point at
    // each other, and nothing else pointed at `p` (a placeholder is not a
    // matched jump's partner).
    let patched = acc.update(p, Instruction::Jump((l - p) as isize)).push(
        Instruction::Jump((p - l) as isize),
    );
    assert(patched.len() == l + 1);
    assert forall|i: int| 0 <= i < patched.len() implies #[trigger] jump_ok(patched, i) by {
        if i == p {
            assert(patched[p] == Instruction::Jump((l - p) as isize));
            assert(patched[l] == Instruction::Jump((p - l) as isize));
        } else if i == l {
            assert(patched[p] == Instruction::Jump((l - p) as isize));
        } else {
            assert(jump_ok(acc, i));
            assert(patched[i] == acc[i]);
            if let Instruction::Jump(k) = acc[i] {
                if k != 0 {
                    let t = i + (k as int);
                    lemma_partner_is_matched_jump(acc, i);
                    assert(t != p);
                    assert(patched[t] == acc[t]);
                }
            }
        }
    }
    assert(params_bounded(patched, b + 1));
    let c = peephole(patched);
    if c != patched {
        let n = patched.len() as int;
        assert(patched[n - 3] == Instruction::Jump(2isize));
        assert(patched[n - 1] == Instruction::Jump((-2) as isize));
        let base = patched.take(n - 3);
        assert forall|i: int| 0 <= i < base.len() implies #[trigger] jump_ok(base, i) by {
            assert(jump_ok(patched, i));
            assert(base[i] == patched[i]);
            if let Instruction::Jump(k) = patched[i] {
                if k != 0 {
                    let t = i + (k as int);
                    assert(patched[t] matches Instruction::Jump(k2) && k2 as int == -(k
                        as int));
                    // The partner cannot lie inside the dropped zeroing loop.
                    if t == n - 3 {
                        assert(-(k as int) == 2);
                        assert(i == n - 1);
                    }
                    if t == n - 2 {
                        assert(!(patched[t] matches Instruction::Jump(_)));
                    }
                    if t == n - 1 {
                        assert(-(k as int) == -2);
                        assert(i == n - 3);
                    }
                    assert(t < n - 3);
                    assert(base[t] == patched[t]);
                }
            }
        }
        lemma_push_keeps_paired(base, Instruction::ClearCell);
        assert(c == base.push(Instruction::ClearCell));
        assert(params_bounded(c, b + 1));
    }
}

/// A successful scan yields a paired, parameter-bounded accumulator no
/// longer than the source.
proof fn lemma_scan_wf(src: Seq<u8>)
    requires
        src.len() <= isize::MAX as int,
    ensures
        scan(src) matches Ok(code) ==> {
            &&& jumps_paired(code)
            &&& params_bounded(code, src.len() as int)
            &&& code.len() <= src.len()
        },
    decreases src.len(),
{
    if src.len() == 0 {
        return ;
    }
    let prefix = src.drop_last();
    lemma_scan_wf(prefix);
    if let Ok(acc) = scan(prefix) {
        let n = prefix.len() as int;
        let b = src.len() as int;
        assert(params_bounded(acc, n) ==> params_bounded(acc, b));
        let last = src.last();
        if last == 62 || last == 60 {
            let d: int = if last == 62 {
                1
            } else {
                -1
            };
            let r = fuse_move(acc, d);
            if acc.len() > 0 && (acc.last() matches Instruction::MovePointer(_)) {
                assert(param_bounded(acc[acc.len() - 1], n));
                let k = acc.last()->MovePointer_0;
                if k as int + d == 0 {
                    lemma_drop_last_keeps_paired(acc);
                } else {
                    lemma_update_last_keeps_paired(
                        acc,
                        Instruction::MovePointer((k as int + d) as isize),
                    );
                }
            } else {
                lemma_push_keeps_paired(acc, Instruction::MovePointer(d as isize));
            }
            assert(params_bounded(r, b));
        } else if last == 43 || last == 45 {
            let d: int = if last == 43 {
                1
            } else {
                -1
            };
            let r = fuse_add(acc, d);
            if acc.len() > 0 && (acc.last() matches Instruction::AddToCell(_)) {
                assert(param_bounded(acc[acc.len() - 1], n));
                let k = acc.last()->AddToCell_0;
                if k as int + d == 0 {
                    lemma_drop_last_keeps_paired(acc);
                } else {
                    lemma_update_last_keeps_paired(
                        acc,
                        Instruction::AddToCell((k as int + d) as isize),
                    );
                }
            } else {
                lemma_push_keeps_paired(acc, Instruction::AddToCell(d as isize));
            }
            assert(params_bounded(r, b));
        } else if last == 91 {
            lemma_push_keeps_paired(acc, Instruction::Jump(0isize));
        } else if last == 93 {
            lemma_close_keeps_wf(acc, n);
            assert(scan(src) == close_loop(acc));
            if let Ok(c) = close_loop(acc) {
                assert(params_bounded(c, n + 1) ==> params_bounded(c, b));
            }
        } else if last == 46 {
            lemma_push_keeps_paired(acc, Instruction::Print);
        } else if last == 44 {
            lemma_push_keeps_paired(acc, Instruction::Read);
        }
    }
}

// ---------------------------------------------------------------------------
// Bracket balance.
// ---------------------------------------------------------------------------

/// How many times byte `b` occurs in `src`.
pub open spec fn count_byte(src: Seq<u8>, b: u8) -> nat
    decreases src.len(),
{
    if src.len() == 0 {
        0
    } else {
        count_byte(src.drop_last(), b) + (if src.last() == b {
            1nat
        } else {
            0nat
        })
    }
}

/// How many open placeholders `code` holds.
pub open spec fn count_placeholders(code: Seq<Instruction>) -> nat
    decreases code.len(),
{
    if code.len() == 0 {
        0
    } else {
        count_placeholders(code.drop_last()) + (if is_open_placeholder(code.last()) {
            1nat
        } else {
            0nat
        })
    }
}

/// Every prefix of `src` holds at least as many open brackets as close
/// brackets.
pub open spec fn prefix_balanced(src: Seq<u8>) -> bool {
    forall|i: int|
        0 <= i <= src.len() ==> count_byte(#[trigger] src.take(i), 93) <= count_byte(
            src.take(i),
            91,
        )
}

proof fn lemma_count_ph_push(v: Seq<Instruction>, x: Instruction)
    ensures
        count_placeholders(v.push(x)) == count_placeholders(v) + (if is_open_placeholder(x) {
            1nat
        } else {
            0nat
        }),
{
    assert(v.push(x).drop_last() =~= v);
    assert(v.push(x).last() == x);
}

proof fn lemma_count_ph_update(v: Seq<Instruction>, j: int, x: Instruction)
    requires
        0 <= j < v.len(),
    ensures
        count_placeholders(v.update(j, x)) + (if is_open_placeholder(v[j]) {
            1nat
        } else {
            0nat
        }) == count_placeholders(v) + (if is_open_placeholder(x) {
            1nat
        } else {
            0nat
        }),
    decreases v.len(),
{
    let u = v.update(j, x);
    if j == v.len() - 1 {
        assert(u.drop_last() =~= v.drop_last());
        assert(u.last() == x);
    } else {
        assert(u.drop_last() =~= v.drop_last().update(j, x));
        assert(u.last() == v.last());
        assert(v.drop_last()[j] == v[j]);
        lemma_count_ph_update(v.drop_last(), j, x);
    }
}

proof fn lemma_count_ph_zero(v: Seq<Instruction>)
    ensures
        (count_placeholders(v) == 0) <==> !has_placeholder(v),
    decreases v.len(),
{
    if v.len() == 0 {
    } else {
        let d = v.drop_last();
        lemma_count_ph_zero(d);
        assert(forall|j: int| 0 <= j < d.len() ==> d[j] == v[j]);
        if count_placeholders(v) == 0 {
            assert(!is_open_placeholder(v.last()));
            assert forall|j: int| 0 <= j < v.len() implies !is_open_placeholder(v[j]) by {
                if j < v.len() - 1 {
                    assert(!has_placeholder(d));
                    assert(d[j] == v[j]);
                    assert(!is_open_placeholder(d[j]));
                }
            }
        } else {
            if is_open_placeholder(v.last()) {
                assert(is_open_placeholder(v[v.len() - 1]));
            } else {
                assert(count_placeholders(d) > 0);
                assert(has_placeholder(d));
                let j = choose|j: int| 0 <= j < d.len() && is_open_placeholder(d[j]);
                assert(is_open_placeholder(v[j]));
            }
        }
    }
}

/// The balance bookkeeping of the scan: along a successful scan the number
/// of open placeholders is exactly the surplus of open brackets over close
/// brackets, every prefix holds at least as many opens as closes, and the
/// scan fails, always as an unmatched close, exactly when some prefix holds
/// more closes than opens.
proof fn lemma_scan_balance(src: Seq<u8>)
    requires
        src.len() <= isize::MAX as int,
    ensures
        (scan(src) matches Ok(code) ==> {
            &&& prefix_balanced(src)
            &&& count_placeholders(code) + count_byte(src, 93) == count_byte(src, 91)
        }),
        scan(src) is Err ==> {
            &&& scan(src) == Err::<Seq<Instruction>, CompileError>(CompileError::UnmatchedClose)
            &&& !prefix_balanced(src)
        },
    decreases src.len(),
{
    if src.len() == 0 {
        assert(src.take(0) =~= src);
        assert(prefix_balanced(src));
        return ;
    }
    let d = src.drop_last();
    let b = src.last();
    lemma_scan_balance(d);
    assert(forall|i: int| 0 <= i <= d.len() ==> src.take(i) =~= d.take(i));
    assert(src.take(src.len() as int) =~= src);
    if scan(d) is Err {
        let i = choose|i: int|
            0 <= i <= d.len() && count_byte(d.take(i), 93) > count_byte(#[trigger] d.take(i), 91);
        assert(count_byte(src.take(i), 93) > count_byte(src.take(i), 91));
        return ;
    }
    let acc = scan(d)->Ok_0;
    if b == 91 {
        lemma_count_ph_push(acc, Instruction::Jump(0isize));
        assert forall|i: int|
            0 <= i <= src.len() implies count_byte(#[trigger] src.take(i), 93) <= count_byte(
            src.take(i),
            91,
        ) by {
            if i == src.len() {
                assert(src.take(i) =~= src);
            }
        }
    } else if b == 93 {
        lemma_find_open_props(acc, acc.len() - 1);
        lemma_count_ph_zero(acc);
        let p = find_open(acc, acc.len() - 1);
        if p < 0 {
            // No open placeholder was left: the scan so far was exactly
            // balanced, and this close tips it over.
            assert(!has_placeholder(acc));
            assert(count_placeholders(acc) == 0);
            assert(count_byte(src, 93) > count_byte(src, 91));
            assert(src.take(src.len() as int) =~= src);
            assert(!prefix_balanced(src));
        } else {
            assert(is_open_placeholder(acc[p]));
            assert(has_placeholder(acc));
            assert(count_placeholders(acc) > 0);
            let l = acc.len() as int;
            lemma_scan_wf(d);
            assert(l <= isize::MAX as int);
            if p == l - 1 {
                assert(acc.drop_last().push(acc.last()) =~= acc);
                lemma_count_ph_push(acc.drop_last(), acc.last());
                assert(count_placeholders(acc.drop_last()) + 1 == count_placeholders(acc));
            } else {
                let patched = acc.update(p, Instruction::Jump((l - p) as isize)).push(
                    Instruction::Jump((p - l) as isize),
                );
                lemma_count_ph_update(acc, p, Instruction::Jump((l - p) as isize));
                lemma_count_ph_push(
                    acc.update(p, Instruction::Jump((l - p) as isize)),
                    Instruction::Jump((p - l) as isize),
                );
                assert(0 < l - p <= isize::MAX as int);
                assert(!is_open_placeholder(Instruction::Jump((l - p) as isize)));
                assert(!is_open_placeholder(Instruction::Jump((p - l) as isize)));
                assert(count_placeholders(patched) + 1 == count_placeholders(acc));
                let c = peephole(patched);
                if c != patched {
                    let n = patched.len() as int;
                    let t2 = patched.drop_last();
                    let t1 = t2.drop_last();
                    let base = t1.drop_last();
                    assert(base =~= patched.take(n - 3));
                    assert(patched.last() == patched[n - 1]);
                    assert(t2.last() == patched[n - 2]);
                    assert(t1.last() == patched[n - 3]);
                    assert(!is_open_placeholder(patched[n - 1]));
                    assert(!is_open_placeholder(patched[n - 2]));
                    assert(!is_open_placeholder(patched[n - 3]));
                    assert(count_placeholders(patched) == count_placeholders(t2));
                    assert(count_placeholders(t2) == count_placeholders(t1));
                    assert(count_placeholders(t1) == count_placeholders(base));
                    lemma_count_ph_push(base, Instruction::ClearCell);
                    assert(count_placeholders(c) == count_placeholders(patched));
                }
            }
            assert forall|i: int|
                0 <= i <= src.len() implies count_byte(#[trigger] src.take(i), 93) <= count_byte(
                src.take(i),
                91,
            ) by {
                if i == src.len() {
                    assert(src.take(i) =~= src);
                }
            }
        }
    } else {
        // Every other byte leaves the placeholder count unchanged.
        if b == 62 || b == 60 {
            let dd: int = if b == 62 {
                1
            } else {
                -1
            };
            if acc.len() > 0 && (acc.last() matches Instruction::MovePointer(_)) {
                let k = acc.last()->MovePointer_0;
                if k as int + dd == 0 {
                    assert(acc.drop_last().push(acc.last()) =~= acc);
                    lemma_count_ph_push(acc.drop_last(), acc.last());
                } else {
                    lemma_count_ph_update(
                        acc,
                        acc.len() - 1,
                        Instruction::MovePointer((k as int + dd) as isize),
                    );
                }
            } else {
                lemma_count_ph_push(acc, Instruction::MovePointer(dd as isize));
            }
        } else if b == 43 || b == 45 {
            let dd: int = if b == 43 {
                1
            } else {
                -1
            };
            if acc.len() > 0 && (acc.last() matches Instruction::AddToCell(_)) {
                let k = acc.last()->AddToCell_0;
                if k as int + dd == 0 {
                    assert(acc.drop_last().push(acc.last()) =~= acc);
                    lemma_count_ph_push(acc.drop_last(), acc.last());
                } else {
                    lemma_count_ph_update(
                        acc,
                        acc.len() - 1,
                        Instruction::AddToCell((k as int + dd) as isize),
                    );
                }
            } else {
                lemma_count_ph_push(acc, Instruction::AddToCell(dd as isize));
            }
        } else if b == 46 {
            lemma_count_ph_push(acc, Instruction::Print);
        } else if b == 44 {
            lemma_count_ph_push(acc, Instruction::Read);
        }
        assert forall|i: int|
            0 <= i <= src.len() implies count_byte(#[trigger] src.take(i), 93) <= count_byte(
            src.take(i),
            91,
        ) by {
            if i == src.len() {
                assert(src.take(i) =~= src);
            }
        }
    }
}

/// Bracket balance: compilation fails with `UnmatchedClose` exactly when
/// some prefix of the source holds more close brackets than open brackets;
/// it fails with `UnmatchedOpen` exactly when no prefix does but the whole
/// source holds more opens than closes; and it succeeds exactly when the
/// brackets balance.
pub proof fn lemma_bracket_balance(src: Seq<u8>)
    requires
        src.len() <= isize::MAX as int,
    ensures
        compile_spec(src) == Err::<Seq<Instruction>, CompileError>(CompileError::UnmatchedClose)
            <==> !prefix_balanced(src),
        compile_spec(src) == Err::<Seq<Instruction>, CompileError>(CompileError::UnmatchedOpen)
            <==> (prefix_balanced(src) && count_byte(src, 91) > count_byte(src, 93)),
        compile_spec(src) is Ok <==> (prefix_balanced(src) && count_byte(src, 91) == count_byte(
            src,
            93,
        )),
{
    lemma_scan_balance(src);
    if let Ok(code) = scan(src) {
        lemma_count_ph_zero(code);
    }
}

// ---------------------------------------------------------------------------
// Jump symmetry.
// ---------------------------------------------------------------------------

/// Jump symmetry: in a compiled program, every jump carries a nonzero
/// offset, and the instruction the offset distance away is a jump carrying
/// the negated offset — following the open's offset forward and then the
/// close's offset backward returns to the open.
pub proof fn lemma_jump_symmetry(src: Seq<u8>, code: Seq<Instruction>)
    requires
        src.len() <= isize::MAX as int,
        compile_spec(src) == Ok::<Seq<Instruction>, CompileError>(code),
    ensures
        program_wf(code),
        forall|i: int| 0 <= i < code.len() ==> #[trigger] jump_ok(code, i),
        forall|i: int|
            0 <= i < code.len() ==> ((#[trigger] code[i]) matches Instruction::Jump(k) ==> k != 0),
{
    lemma_scan_wf(src);
    assert(!has_placeholder(code));
    assert forall|i: int|
        0 <= i < code.len() implies ((#[trigger] code[i]) matches Instruction::Jump(k) ==> k
        != 0) by {
        if let Instruction::Jump(k) = code[i] {
            if k == 0 {
                assert(is_open_placeholder(code[i]));
            }
        }
    }
}

/// Determinism of compilation: the result is a function of the source bytes
/// alone, so two compilations of the same source agree outright — on
/// success they carry identical instruction sequences, and on failure they
/// report the same error.
pub proof fn lemma_compile_deterministic(
    src: Seq<u8>,
    r1: Result<Seq<Instruction>, CompileError>,
    r2: Result<Seq<Instruction>, CompileError>,
)
    requires
        r1 == compile_spec(src),
        r2 == compile_spec(src),
    ensures
        r1 == r2,
{
}

// ---------------------------------------------------------------------------
// The compiled program.
// ---------------------------------------------------------------------------

/// The ordered instruction sequence produced by `compile`; immutable once
/// built, and well formed by construction.
#[derive(Debug)]
pub struct Program {
    instructions: Vec<Instruction>,
}

impl View for Program {
    type V = Seq<Instruction>;

    closed spec fn view(&self) -> Seq<Instruction> {
        self.instructions@
    }
}

impl Program {
    /// A finished program is short enough for its offsets, has no
    /// placeholder left, and has every jump matched to its partner.
    pub open spec fn wf(&self) -> bool {
        program_wf(self@)
    }

    /// The program with no instructions at all.
    pub fn empty() -> (r: Program)
        ensures
            r@ == Seq::<Instruction>::empty(),
            r.wf(),
    {
        let r = Program { instructions: Vec::new() };
        proof {
            assert(!has_placeholder(r@));
            assert(jumps_paired(r@));
        }
        r
    }

    /// How many instructions the program holds.
    pub fn len(&self) -> (r: usize)
        ensures
            r == self@.len(),
    {
        self.instructions.len()
    }

    /// The instruction at position `i`.
    pub fn get(&self, i: usize) -> (r: Instruction)
        requires
            i < self@.len(),
        ensures
            r == self@[i as int],
    {
        self.instructions[i]
    }

    /// The whole instruction sequence, for callers that want to inspect it.
    pub fn instructions(&self) -> (r: &Vec<Instruction>)
        ensures
            r@ == self@,
    {
        &self.instructions
    }
}

// ---------------------------------------------------------------------------
// The compiler.
// ---------------------------------------------------------------------------

/// Fold a pointer move into the emitted code, exactly as `fuse_move` says.
fn apply_move(code: &mut Vec<Instruction>, d: isize, Ghost(b): Ghost<int>)
    requires
        d == 1 || d == -1,
        params_bounded(old(code)@, b),
        0 <= b,
        b + 1 <= isize::MAX as int,
    ensures
        final(code)@ == fuse_move(old(code)@, d as int),
{
    let n = code.len();
    if n > 0 {
        let last = code[n - 1];
        if let Instruction::MovePointer(k) = last {
            proof {
                assert(param_bounded(old(code)@[n - 1], b));
            }
            if k + d == 0 {
                code.pop();
                proof {
                    assert(code@ =~= old(code)@.drop_last());
                }
            } else {
                code.set(n - 1, Instruction::MovePointer(k + d));
            }
            return ;
        }
    }
    code.push(Instruction::MovePointer(d));
}

/// Fold a cell change into the emitted code, exactly as `fuse_add` says.
fn apply_add(code: &mut Vec<Instruction>, d: isize, Ghost(b): Ghost<int>)
    requires
        d == 1 || d == -1,
        params_bounded(old(code)@, b),
        0 <= b,
        b + 1 <= isize::MAX as int,
    ensures
        final(code)@ == fuse_add(old(code)@, d as int),
{
    let n = code.len();
    if n > 0 {
        let last = code[n - 1];
        if let Instruction::AddToCell(k) = last {
            proof {
                assert(param_bounded(old(code)@[n - 1], b));
            }
            if k + d == 0 {
                code.pop();
                proof {
                    assert(code@ =~= old(code)@.drop_last());
                }
            } else {
                code.set(n - 1, Instruction::AddToCell(k + d));
            }
            return ;
        }
    }
    code.push(Instruction::AddToCell(d));
}

/// Fold a loop close into the emitted code, exactly as `close_loop` says.
/// Returns `false` when no open bracket was left to match.
fn apply_close(code: &mut Vec<Instruction>) -> (r: bool)
    requires
        old(code)@.len() <= isize::MAX as int,
    ensures
        r ==> (close_loop(old(code)@) matches Ok(c) && final(code)@ == c),
        !r ==> close_loop(old(code)@) == Err::<Seq<Instruction>, CompileError>(
            CompileError::UnmatchedClose,
        ) && final(code)@ == old(code)@,
{
    let l = code.len();
    let mut j: usize = l;
    let mut p: usize = 0;
    let mut found: bool = false;
    // Backward scan for the nearest open placeholder: the innermost
    // unmatched open bracket.
    while j > 0
        invariant_except_break
            !found,
            j <= l,
            l == code@.len(),
            find_open(code@, l as int - 1) == find_open(code@, j as int - 1),
        invariant
            code@ == old(code)@,
            l == code@.len(),
        ensures
            found ==> p < l && code@[p as int] == Instruction::Jump(0isize) && find_open(
                code@,
                l as int - 1,
            ) == p as int,
            !found ==> find_open(code@, l as int - 1) == -1,
        decreases j,
    {
        let idx = j - 1;
        if code[idx] == Instruction::Jump(0) {
            p = idx;
            found = true;
            break ;
        }
        j = idx;
    }
    if !found {
        return false;
    }
    if p == l - 1 {
        // The loop body is empty: the whole loop is elided.
        code.pop();
        proof {
            assert(code@ =~= old(code)@.drop_last());
        }
        return true;
    }
    // Patch the open with the forward distance and append the close with
    // the backward distance.
    let forward: isize = (l - p) as isize;
    code.set(p, Instruction::Jump(forward));
    code.push(Instruction::Jump(-forward));
    let ghost patched = old(code)@.update(p as int, Instruction::Jump((l - p) as isize)).push(
        Instruction::Jump((p as int - l as int) as isize),
    );
    proof {
        assert(code@ == patched);
    }
    // Collapse a freshly closed zeroing loop into a single `ClearCell`.
    let n = code.len();
    if n >= 3 {
        let pattern = code[n - 3] == Instruction::Jump(2) && (code[n - 2]
            == Instruction::AddToCell(1) || code[n - 2] == Instruction::AddToCell(-1)) && code[n
            - 1] == Instruction::Jump(-2);
        if pattern {
            code.truncate(n - 3);
            code.push(Instruction::ClearCell);
            proof {
                assert(patched.take(n - 3 as int) =~= old(code)@.update(
                    p as int,
                    Instruction::Jump((l - p) as isize),
                ).push(Instruction::Jump((p as int - l as int) as isize)).take(n - 3));
                assert(code@ =~= peephole(patched));
            }
        }
    }
    proof {
        assert(code@ =~= peephole(patched));
    }
    true
}

/// Translate source text into a finished program.
///
/// Exactly eight byte values are significant; every other byte of the text,
/// whitespace and comments included, is ignored.  The result is a function
/// of the source bytes alone, pinned down by `compile_spec`.
pub fn compile(source: &str) -> (r: Result<Program, CompileError>)
    requires
        source.spec_bytes().len() <= isize::MAX as int,
    ensures
        r is Ok <==> compile_spec(source.spec_bytes()) is Ok,
        r matches Ok(prog) ==> compile_spec(source.spec_bytes()) == Ok::<
            Seq<Instruction>,
            CompileError,
        >(prog@) && prog.wf(),
        r matches Err(e) ==> compile_spec(source.spec_bytes()) == Err::<
            Seq<Instruction>,
            CompileError,
        >(e),
{
    let bytes: Vec<u8> = source.as_bytes_vec();
    let ghost src = source.spec_bytes();
    let mut code: Vec<Instruction> = Vec::new();
    proof {
        assert(src.take(0) =~= Seq::<u8>::empty());
    }
    let mut i: usize = 0;
    while i < bytes.len()
        invariant
            bytes@ == src,
            src == source.spec_bytes(),
            src.len() <= isize::MAX as int,
            i <= bytes.len(),
            scan(src.take(i as int)) == Ok::<Seq<Instruction>, CompileError>(code@),
        decreases bytes.len() - i,
    {
        let b = bytes[i];
        proof {
            assert(src.take(i as int + 1).drop_last() =~= src.take(i as int));
            assert(src.take(i as int + 1).last() == b);
            assert(src.take(i as int).len() == i as int);
            lemma_scan_wf(src.take(i as int));
        }
        if b == 62 {  // '>'
            apply_move(&mut code, 1, Ghost(i as int));
        } else if b == 60 {  // '<'
            apply_move(&mut code, -1, Ghost(i as int));
        } else if b == 43 {  // '+'
            apply_add(&mut code, 1, Ghost(i as int));
        } else if b == 45 {  // '-'
            apply_add(&mut code, -1, Ghost(i as int));
        } else if b == 91 {  // '['
            code.push(Instruction::Jump(0));
        } else if b == 93 {  // ']'
            let matched = apply_close(&mut code);
            if !matched {
                proof {
                    lemma_scan_err_extends(src, i as int + 1);
                }
                return Err(CompileError::UnmatchedClose);
            }
        } else if b == 46 {  // '.'
            code.push(Instruction::Print);
        } else if b == 44 {  // ','
            code.push(Instruction::Read);
        }
        i = i + 1;
    }
    proof {
        assert(src.take(src.len() as int) =~= src);
    }
    // A placeholder that survived the scan is an open bracket that was
    // never closed.
    let mut j: usize = 0;
    while j < code.len()
        invariant
            src == source.spec_bytes(),
            src.len() <= isize::MAX as int,
            scan(src) == Ok::<Seq<Instruction>, CompileError>(code@),
            j <= code@.len(),
            forall|t: int| 0 <= t < j ==> !is_open_placeholder(#[trigger] code@[t]),
        decreases code@.len() - j,
    {
        if code[j] == Instruction::Jump(0) {
            proof {
                assert(is_open_placeholder(code@[j as int]));
                assert(has_placeholder(code@));
            }
            return Err(CompileError::UnmatchedOpen);
        }
        j = j + 1;
    }
    proof {
        assert(!has_placeholder(code@));
        lemma_scan_wf(src);
        assert(program_wf(code@));
    }
    Ok(Program { instructions: code })
}

} // verus!
