//! Byte-level JSON scanning.
//!
//! The wire payloads of this driver are JSON texts.  The driver never needs
//! a full JSON tree: it frames already-serialized blobs into envelopes and
//! reads a few fixed fields back out.  What it does need is to find where
//! one JSON value ends inside a larger text.  That is what the scanner here
//! does: it walks bytes keeping track of bracket depth and string state, and
//! a value extends up to the first separator (`,`, `:`, `]` or `}`) seen at
//! top level outside a string.

use vstd::prelude::*;

verus! {

/// Scanner state: bracket depth, whether inside a string literal, and
/// whether the previous byte was a backslash inside a string.
pub struct ScanSt {
    pub depth: int,
    pub instr: bool,
    pub esc: bool,
}

pub open spec fn init_scan() -> ScanSt {
    ScanSt { depth: 0, instr: false, esc: false }
}

/// How one byte changes the scanner state.
pub open spec fn scan_step(st: ScanSt, b: u8) -> ScanSt {
    if st.esc {
        ScanSt { esc: false, ..st }
    } else if st.instr {
        if b == 34 {
            ScanSt { instr: false, ..st }
        } else if b == 92 {
            ScanSt { esc: true, ..st }
        } else {
            st
        }
    } else {
        if b == 34 {
            ScanSt { instr: true, ..st }
        } else if b == 91 || b == 123 {
            ScanSt { depth: st.depth + 1, ..st }
        } else if b == 93 || b == 125 {
            ScanSt { depth: st.depth - 1, ..st }
        } else {
            st
        }
    }
}

/// State after scanning `s[from..i]`, starting fresh at `from`.
pub open spec fn scan_at(s: Seq<u8>, from: int, i: int) -> ScanSt
    decreases i - from,
{
    if i <= from {
        init_scan()
    } else {
        scan_step(scan_at(s, from, i - 1), s[i - 1])
    }
}

/// Top level: outside every bracket and string.
pub open spec fn at_top(st: ScanSt) -> bool {
    st.depth == 0 && !st.instr && !st.esc
}

/// A byte that ends a value when seen at top level: `,`, `:`, `]`, `}`.
pub open spec fn is_sep(b: u8) -> bool {
    b == 44 || b == 58 || b == 93 || b == 125
}

/// Position `i` terminates the value that starts at `from`.
pub open spec fn is_term(s: Seq<u8>, from: int, i: int) -> bool {
    at_top(scan_at(s, from, i)) && is_sep(s[i])
}

/// Where the value starting at `from` ends: the first terminator at or
/// after `from`, or the end of `s` when none is there.
pub open spec fn scan_end(s: Seq<u8>, from: int) -> int
    decreases s.len() - from,
{
    if from < 0 || from >= s.len() {
        s.len() as int
    } else if is_term(s, from, from) {
        from
    } else {
        scan_end_h(s, from, from + 1)
    }
}

/// Helper: the first terminator at or after `i`, for a value begun at `from`.
pub open spec fn scan_end_h(s: Seq<u8>, from: int, i: int) -> int
    decreases s.len() - i,
{
    if i >= s.len() {
        s.len() as int
    } else if is_term(s, from, i) {
        i
    } else {
        scan_end_h(s, from, i + 1)
    }
}

/// `scan_end` really is the first terminator: nothing before it terminates,
/// and it terminates unless it is the end of the text.
pub proof fn lemma_scan_end(s: Seq<u8>, from: int)
    requires
        0 <= from <= s.len(),
    ensures
        from <= scan_end(s, from) <= s.len(),
        forall|j: int| from <= j < scan_end(s, from) ==> !is_term(s, from, j),
        scan_end(s, from) < s.len() ==> is_term(s, from, scan_end(s, from)),
{
    if from < s.len() && !is_term(s, from, from) {
        lemma_scan_end_h(s, from, from + 1);
    }
}

proof fn lemma_scan_end_h(s: Seq<u8>, from: int, i: int)
    requires
        from < i <= s.len(),
    ensures
        i <= scan_end_h(s, from, i) <= s.len(),
        forall|j: int| i <= j < scan_end_h(s, from, i) ==> !is_term(s, from, j),
        scan_end_h(s, from, i) < s.len() ==> is_term(s, from, scan_end_h(s, from, i)),
    decreases s.len() - i,
{
    if i < s.len() && !is_term(s, from, i) {
        lemma_scan_end_h(s, from, i + 1);
    }
}

/// Two windows holding the same bytes scan to the same state.
pub proof fn lemma_scan_agree(s1: Seq<u8>, f1: int, s2: Seq<u8>, f2: int, n: int)
    requires
        0 <= n,
        0 <= f1,
        0 <= f2,
        f1 + n <= s1.len(),
        f2 + n <= s2.len(),
        forall|k: int| 0 <= k < n ==> s1[f1 + k] == #[trigger] s2[f2 + k],
    ensures
        scan_at(s1, f1, f1 + n) == scan_at(s2, f2, f2 + n),
    decreases n,
{
    if n > 0 {
        lemma_scan_agree(s1, f1, s2, f2, n - 1);
        assert(s1[f1 + (n - 1)] == s2[f2 + (n - 1)]);
    }
}

/// State after running the scanner over `s[from..i]`, starting in `st`.
pub open spec fn scan_run(st: ScanSt, s: Seq<u8>, from: int, i: int) -> ScanSt
    decreases i - from,
{
    if i <= from {
        st
    } else {
        scan_step(scan_run(st, s, from, i - 1), s[i - 1])
    }
}

/// A fresh scan is a run from the initial state.
pub proof fn lemma_scan_at_is_run(s: Seq<u8>, from: int, i: int)
    ensures
        scan_at(s, from, i) == scan_run(init_scan(), s, from, i),
    decreases i - from,
{
    if i > from {
        lemma_scan_at_is_run(s, from, i - 1);
    }
}

/// Running over two adjacent windows composes.
pub proof fn lemma_scan_run_concat(st: ScanSt, s: Seq<u8>, from: int, mid: int, i: int)
    requires
        from <= mid <= i,
    ensures
        scan_run(st, s, from, i) == scan_run(scan_run(st, s, from, mid), s, mid, i),
    decreases i - mid,
{
    if i > mid {
        lemma_scan_run_concat(st, s, from, mid, i - 1);
    }
}

/// Two windows holding the same bytes run to the same state, whatever the
/// start state.
pub proof fn lemma_scan_run_agree(st: ScanSt, s1: Seq<u8>, f1: int, s2: Seq<u8>, f2: int, n: int)
    requires
        0 <= n,
        0 <= f1,
        0 <= f2,
        f1 + n <= s1.len(),
        f2 + n <= s2.len(),
        forall|k: int| 0 <= k < n ==> s1[f1 + k] == #[trigger] s2[f2 + k],
    ensures
        scan_run(st, s1, f1, f1 + n) == scan_run(st, s2, f2, f2 + n),
    decreases n,
{
    if n > 0 {
        lemma_scan_run_agree(st, s1, f1, s2, f2, n - 1);
        assert(s1[f1 + (n - 1)] == s2[f2 + (n - 1)]);
    }
}

/// The scanner treats the bracket depth additively: starting `d` deeper
/// ends `d` deeper, with the same string state.
pub proof fn lemma_scan_depth_shift(st: ScanSt, s: Seq<u8>, from: int, i: int, d: int)
    requires
        from <= i,
    ensures
        scan_run(ScanSt { depth: st.depth + d, ..st }, s, from, i) == (ScanSt {
            depth: scan_run(st, s, from, i).depth + d,
            ..scan_run(st, s, from, i)
        }),
    decreases i - from,
{
    if i > from {
        lemma_scan_depth_shift(st, s, from, i - 1, d);
    }
}

/// Scanning a self-delimiting value never dips below the starting depth,
/// and an escape flag only ever shows inside a string.
pub proof fn lemma_value_depth_nonneg(v: Seq<u8>, j: int)
    requires
        0 <= j <= v.len(),
        forall|k: int| 0 <= k < v.len() ==> !is_term(v, 0, k),
    ensures
        scan_at(v, 0, j).depth >= 0,
        scan_at(v, 0, j).esc ==> scan_at(v, 0, j).instr,
    decreases j,
{
    if j > 0 {
        lemma_value_depth_nonneg(v, j - 1);
        let st = scan_at(v, 0, j - 1);
        let b = v[j - 1];
        if !st.esc && !st.instr && st.depth == 0 && (b == 93 || b == 125) {
            assert(is_term(v, 0, j - 1));
        }
    }
}

/// A byte the scanner ignores at top level: neither a quote, a bracket,
/// a brace nor a separator.
pub open spec fn is_plain(b: u8) -> bool {
    b != 34 && b != 91 && b != 93 && b != 123 && b != 125 && b != 44 && b != 58
}

/// A non-empty run of plain bytes — digits, say — is a self-delimiting
/// value.
pub proof fn lemma_plain_value(v: Seq<u8>)
    requires
        v.len() > 0,
        forall|k: int| 0 <= k < v.len() ==> is_plain(#[trigger] v[k]),
    ensures
        json_value_ok(v),
{
    lemma_plain_window(v, v.len() as int);
    assert forall|j: int| 0 <= j < v.len() implies !is_term(v, 0, j) by {
        lemma_plain_window(v, j);
        assert(is_plain(v[j]));
    }
}

proof fn lemma_plain_window(v: Seq<u8>, n: int)
    requires
        0 <= n <= v.len(),
        forall|k: int| 0 <= k < v.len() ==> is_plain(#[trigger] v[k]),
    ensures
        scan_at(v, 0, n) == init_scan(),
    decreases n,
{
    if n > 0 {
        lemma_plain_window(v, n - 1);
        assert(is_plain(v[n - 1]));
    }
}

/// A quoted literal whose body holds no quote and no backslash is a
/// self-delimiting value.
pub proof fn lemma_string_value(v: Seq<u8>)
    requires
        v.len() >= 2,
        v[0] == 34,
        v[v.len() - 1] == 34,
        forall|k: int| 1 <= k < v.len() - 1 ==> v[k] != 34 && #[trigger] v[k] != 92,
    ensures
        json_value_ok(v),
{
    assert forall|j: int| 1 <= j <= v.len() - 1 implies scan_at(v, 0, j) == (ScanSt {
        depth: 0,
        instr: true,
        esc: false,
    }) by {
        lemma_string_window(v, j);
    }
    assert(scan_at(v, 0, v.len() as int) == scan_step(
        scan_at(v, 0, v.len() - 1),
        v[v.len() - 1],
    ));
    assert(at_top(scan_at(v, 0, v.len() as int)));
    assert forall|j: int| 0 <= j < v.len() implies !is_term(v, 0, j) by {
        if j == 0 {
            assert(!is_sep(v[0]));
        } else {
            lemma_string_window(v, j);
        }
    }
}

proof fn lemma_string_window(v: Seq<u8>, j: int)
    requires
        v.len() >= 2,
        v[0] == 34,
        forall|k: int| 1 <= k < v.len() - 1 ==> v[k] != 34 && #[trigger] v[k] != 92,
        1 <= j <= v.len() - 1,
    ensures
        scan_at(v, 0, j) == (ScanSt { depth: 0, instr: true, esc: false }),
    decreases j,
{
    if j > 1 {
        lemma_string_window(v, j - 1);
        assert(v[j - 1] != 34 && v[j - 1] != 92);
        assert(scan_at(v, 0, j) == scan_step(scan_at(v, 0, j - 1), v[j - 1]));
    } else {
        assert(scan_at(v, 0, 1) == scan_step(scan_at(v, 0, 0), v[0]));
        assert(scan_at(v, 0, 0) == init_scan());
    }
}

/// A rendered digit run embedded in a larger text reads back as itself:
/// the run ends right where the rendering ends.
pub proof fn lemma_digit_extent(s: Seq<u8>, from: int, d: Seq<u8>)
    requires
        all_digits(d),
        d.len() > 0,
        0 <= from,
        from + d.len() < s.len(),
        forall|k: int| 0 <= k < d.len() ==> s[from + k] == #[trigger] d[k],
        !is_digit(s[from + d.len()]),
    ensures
        digit_run_end(s, from) == from + d.len(),
        s.subrange(from, from + d.len()) == d,
{
    lemma_digit_run_end(s, from);
    let e = digit_run_end(s, from);
    if e < from + d.len() {
        assert(s[from + (e - from)] == d[e - from]);
        assert(is_digit(s[e]));
        assert(false);
    }
    if e > from + d.len() {
        assert(is_digit(s[from + d.len()]));
        assert(false);
    }
    assert(s.subrange(from, from + d.len()) =~= d);
}

/// Values joined by top-level commas, as inside an array.
pub open spec fn join_values(ws: Seq<Seq<u8>>) -> Seq<u8>
    decreases ws.len(),
{
    if ws.len() == 0 {
        Seq::empty()
    } else if ws.len() == 1 {
        ws[0]
    } else {
        ws[0] + seq![44u8] + join_values(ws.drop_first())
    }
}

/// The array holding exactly the values `ws`, in order.
pub open spec fn render_array(ws: Seq<Seq<u8>>) -> Seq<u8> {
    seq![91u8] + join_values(ws) + seq![93u8]
}

/// Scanning a join of self-delimiting values never leaves non-negative
/// depth and ends back at the initial state.
pub proof fn lemma_join_scan(ws: Seq<Seq<u8>>)
    requires
        forall|i: int| 0 <= i < ws.len() ==> json_value_ok(#[trigger] ws[i]),
    ensures
        ({
            let jv = join_values(ws);
            &&& scan_at(jv, 0, jv.len() as int) == init_scan()
            &&& forall|k: int| 0 <= k <= jv.len() ==> (#[trigger] scan_at(jv, 0, k)).depth >= 0
        }),
    decreases ws.len(),
{
    let jv = join_values(ws);
    if ws.len() == 0 {
        assert forall|k: int| 0 <= k <= jv.len() implies (#[trigger] scan_at(jv, 0, k)).depth
            >= 0 by {
            assert(scan_at(jv, 0, k) == init_scan());
        }
    } else if ws.len() == 1 {
        let w = ws[0];
        assert(json_value_ok(w));
        assert(at_top(scan_at(w, 0, w.len() as int)));
        assert(scan_at(w, 0, w.len() as int) == init_scan());
        assert forall|k: int| 0 <= k <= jv.len() implies (#[trigger] scan_at(jv, 0, k)).depth
            >= 0 by {
            lemma_value_depth_nonneg(w, k);
        }
    } else {
        let w = ws[0];
        let rest = join_values(ws.drop_first());
        assert(jv == w + seq![44u8] + rest);
        assert(forall|i: int|
            0 <= i < ws.drop_first().len() ==> json_value_ok(#[trigger] ws.drop_first()[i]));
        lemma_join_scan(ws.drop_first());
        let wl = w.len() as int;
        // the state right after the leading value and its comma
        assert forall|k: int| 0 <= k <= wl implies scan_at(jv, 0, k) == scan_at(w, 0, k) by {
            lemma_scan_agree(jv, 0, w, 0, k);
        }
        assert(json_value_ok(w));
        assert(at_top(scan_at(w, 0, wl)));
        assert(scan_at(jv, 0, wl) == init_scan());
        assert(scan_at(jv, 0, wl + 1) == scan_step(scan_at(jv, 0, wl), jv[wl]));
        assert(jv[wl] == 44);
        assert(scan_at(jv, 0, wl + 1) == init_scan());
        // from there on, the scan is the scan of the tail join
        assert forall|k: int| wl + 1 <= k <= jv.len() implies scan_at(jv, 0, k) == scan_at(
            rest,
            0,
            k - (wl + 1),
        ) by {
            lemma_scan_at_is_run(jv, 0, k);
            lemma_scan_run_concat(init_scan(), jv, 0, wl + 1, k);
            lemma_scan_at_is_run(jv, 0, wl + 1);
            assert(scan_run(init_scan(), jv, 0, wl + 1) == init_scan());
            assert(forall|m: int|
                0 <= m < k - (wl + 1) ==> jv[wl + 1 + m] == #[trigger] rest[m]);
            lemma_scan_run_agree(init_scan(), jv, wl + 1, rest, 0, k - (wl + 1));
            lemma_scan_at_is_run(rest, 0, k - (wl + 1));
        }
        assert(scan_at(jv, 0, jv.len() as int) == scan_at(rest, 0, rest.len() as int));
        assert forall|k: int| 0 <= k <= jv.len() implies (#[trigger] scan_at(jv, 0, k)).depth
            >= 0 by {
            if k <= wl {
                lemma_value_depth_nonneg(w, k);
            } else if k == wl + 1 {
            } else {
                assert(scan_at(jv, 0, k) == scan_at(rest, 0, k - (wl + 1)));
            }
        }
    }
}

/// An array of self-delimiting values is itself a self-delimiting value.
pub proof fn lemma_array_value(ws: Seq<Seq<u8>>)
    requires
        forall|i: int| 0 <= i < ws.len() ==> json_value_ok(#[trigger] ws[i]),
    ensures
        json_value_ok(render_array(ws)),
{
    let jv = join_values(ws);
    let v = render_array(ws);
    let n = jv.len() as int;
    lemma_join_scan(ws);
    let depth1 = ScanSt { depth: 1, instr: false, esc: false };
    assert(scan_at(v, 0, 0) == init_scan());
    assert(scan_at(v, 0, 1) == scan_step(init_scan(), v[0]));
    assert(v[0] == 91);
    assert(scan_at(v, 0, 1) == depth1);
    // inside the brackets the scan is the join's scan, one level deeper
    assert forall|k: int| 1 <= k <= n + 1 implies scan_at(v, 0, k) == (ScanSt {
        depth: scan_at(jv, 0, k - 1).depth + 1,
        ..scan_at(jv, 0, k - 1)
    }) by {
        lemma_scan_at_is_run(v, 0, k);
        lemma_scan_run_concat(init_scan(), v, 0, 1, k);
        lemma_scan_at_is_run(v, 0, 1);
        assert(scan_run(init_scan(), v, 0, 1) == depth1);
        assert(forall|m: int| 0 <= m < k - 1 ==> v[1 + m] == #[trigger] jv[m]);
        lemma_scan_run_agree(depth1, v, 1, jv, 0, k - 1);
        lemma_scan_at_is_run(jv, 0, k - 1);
        assert(depth1 == (ScanSt { depth: init_scan().depth + 1, ..init_scan() }));
        lemma_scan_depth_shift(init_scan(), jv, 0, k - 1, 1);
    }
    assert(scan_at(v, 0, n + 1).depth == scan_at(jv, 0, n).depth + 1);
    assert(scan_at(v, 0, n + 1) == depth1);
    assert(v[n + 1] == 93);
    assert(scan_at(v, 0, n + 2) == scan_step(scan_at(v, 0, n + 1), v[n + 1]));
    assert(scan_at(v, 0, n + 2) == init_scan());
    assert(v.len() == n + 2);
    assert(at_top(scan_at(v, 0, v.len() as int)));
    assert forall|j: int| 0 <= j < v.len() implies !is_term(v, 0, j) by {
        if j == 0 {
            assert(!is_sep(v[0]));
        } else {
            assert(scan_at(v, 0, j).depth == scan_at(jv, 0, j - 1).depth + 1);
            assert(scan_at(jv, 0, j - 1).depth >= 0);
            assert(!at_top(scan_at(v, 0, j)));
        }
    }
}

/// A self-delimiting JSON value: non-empty, no terminator anywhere inside
/// it, and scanning all of it returns to top level.
pub open spec fn json_value_ok(v: Seq<u8>) -> bool {
    &&& v.len() > 0
    &&& (forall|j: int| 0 <= j < v.len() ==> !is_term(v, 0, j))
    &&& at_top(scan_at(v, 0, v.len() as int))
}

/// Inside a larger text, a self-delimiting value followed by a separator
/// ends exactly at its own length: the scanner can do no other.
pub proof fn lemma_value_extent(s: Seq<u8>, from: int, v: Seq<u8>)
    requires
        json_value_ok(v),
        0 <= from,
        from + v.len() < s.len(),
        forall|k: int| 0 <= k < v.len() ==> s[from + k] == v[k],
        is_sep(s[from + v.len()]),
    ensures
        scan_end(s, from) == from + v.len(),
{
    assert forall|j: int| from <= j < from + v.len() implies !is_term(s, from, j) by {
        lemma_scan_agree(s, from, v, 0, j - from);
        assert(s[from + (j - from)] == v[j - from]);
        assert(!is_term(v, 0, j - from));
    }
    lemma_scan_agree(s, from, v, 0, v.len() as int);
    assert(is_term(s, from, from + v.len()));
    lemma_scan_end(s, from);
    let e = scan_end(s, from);
    if e < from + v.len() {
        assert(!is_term(s, from, e));
        assert(e < s.len());
        assert(false);
    }
    if e > from + v.len() {
        assert(!is_term(s, from, from + v.len()));
        assert(false);
    }
}

/// Finds where the value starting at `from` ends: the byte offset of the
/// first top-level separator, or the end of the slice if there is none.
pub fn scan_value(s: &[u8], from: usize) -> (r: usize)
    requires
        from <= s@.len(),
    ensures
        r == scan_end(s@, from as int),
{
    proof {
        lemma_scan_end(s@, from as int);
    }
    let ghost send = scan_end(s@, from as int);
    let mut i: usize = from;
    let mut depth: usize = 0;
    let mut instr: bool = false;
    let mut esc: bool = false;
    loop
        invariant
            from <= i <= s@.len(),
            scan_at(s@, from as int, i as int) == (ScanSt {
                depth: depth as int,
                instr: instr,
                esc: esc,
            }),
            esc ==> instr,
            depth <= i - from,
            forall|j: int| from <= j < i ==> !is_term(s@, from as int, j),
            i <= send,
            send == scan_end(s@, from as int),
            from <= send <= s@.len(),
            send < s@.len() ==> is_term(s@, from as int, send),
            forall|j: int| from <= j < send ==> !is_term(s@, from as int, j),
        decreases s@.len() - i,
    {
        if i == s.len() {
            proof {
                if send < s@.len() {
                    assert(!is_term(s@, from as int, send));
                }
            }
            return i;
        }
        let b = *vstd::slice::slice_index_get(s, i);
        let top = depth == 0 && !instr && !esc;
        if top && (b == 44 || b == 58 || b == 93 || b == 125) {
            proof {
                assert(is_term(s@, from as int, i as int));
                if (i as int) < send {
                    assert(false);
                }
                if (i as int) > send {
                    assert(!is_term(s@, from as int, send));
                    assert(false);
                }
            }
            return i;
        }
        proof {
            assert(!is_term(s@, from as int, i as int));
            if i as int == send {
                assert(send < s@.len());
                assert(false);
            }
            assert(scan_at(s@, from as int, i + 1) == scan_step(
                scan_at(s@, from as int, i as int),
                s@[i as int],
            ));
        }
        if esc {
            esc = false;
        } else if instr {
            if b == 34 {
                instr = false;
            } else if b == 92 {
                esc = true;
            }
        } else {
            if b == 34 {
                instr = true;
            } else if b == 91 || b == 123 {
                proof {
                    assert(depth < s@.len());
                }
                depth = depth + 1;
            } else if b == 93 || b == 125 {
                // a closing bracket at depth 0 outside a string is a
                // terminator, handled above; here depth is positive
                proof {
                    assert(depth > 0);
                }
                depth = depth - 1;
            }
        }
        i = i + 1;
    }
}

// ------------------------------------------------------------------
// Decimal numbers
// ------------------------------------------------------------------

pub open spec fn is_digit(b: u8) -> bool {
    48 <= b <= 57
}

pub open spec fn all_digits(s: Seq<u8>) -> bool {
    forall|j: int| 0 <= j < s.len() ==> is_digit(#[trigger] s[j])
}

/// The number a run of decimal digits denotes.
pub open spec fn dec_val(s: Seq<u8>) -> int
    decreases s.len(),
{
    if s.len() == 0 {
        0
    } else {
        dec_val(s.drop_last()) * 10 + (s.last() - 48)
    }
}

/// The canonical decimal rendering of `n`, without leading zeros.
pub open spec fn dec_render(n: int) -> Seq<u8>
    decreases n,
{
    if n < 10 {
        seq![(48 + if n >= 0 { n } else { 0 }) as u8]
    } else {
        dec_render(n / 10).push((48 + n % 10) as u8)
    }
}

/// Rendering then reading a number gives the number back.
pub proof fn lemma_dec_render(n: int)
    requires
        n >= 0,
    ensures
        all_digits(dec_render(n)),
        dec_render(n).len() >= 1,
        dec_val(dec_render(n)) == n,
    decreases n,
{
    if n >= 10 {
        lemma_dec_render(n / 10);
        assert(dec_render(n) == dec_render(n / 10).push((48 + n % 10) as u8));
        assert(dec_render(n).drop_last() =~= dec_render(n / 10));
        assert(dec_render(n).last() == (48 + n % 10) as u8);
        assert(dec_render(n).len() > 0);
        assert(dec_val(dec_render(n)) == dec_val(dec_render(n / 10)) * 10 + ((48 + n % 10) as u8
            - 48));
        assert(n == (n / 10) * 10 + n % 10);
    } else {
        let d = dec_render(n);
        assert(d.len() == 1);
        assert(d.drop_last() =~= Seq::<u8>::empty());
        assert(dec_val(d) == dec_val(d.drop_last()) * 10 + (d.last() - 48));
        assert(dec_val(d.drop_last()) == 0);
        assert(d.last() == (48 + n) as u8);
        assert(d.last() - 48 == n);
    }
}

pub proof fn lemma_dec_val_nonneg(s: Seq<u8>)
    requires
        all_digits(s),
    ensures
        dec_val(s) >= 0,
    decreases s.len(),
{
    if s.len() > 0 {
        assert(all_digits(s.drop_last()));
        lemma_dec_val_nonneg(s.drop_last());
    }
}

/// Where the digit run that starts at `from` ends.
pub open spec fn digit_run_end(s: Seq<u8>, from: int) -> int
    decreases s.len() - from,
{
    if 0 <= from && from < s.len() && is_digit(s[from]) {
        digit_run_end(s, from + 1)
    } else {
        from
    }
}

pub proof fn lemma_digit_run_end(s: Seq<u8>, from: int)
    requires
        0 <= from <= s.len(),
    ensures
        from <= digit_run_end(s, from) <= s.len(),
        forall|j: int| from <= j < digit_run_end(s, from) ==> is_digit(#[trigger] s[j]),
        digit_run_end(s, from) < s.len() ==> !is_digit(s[digit_run_end(s, from)]),
    decreases s.len() - from,
{
    if from < s.len() && is_digit(s[from]) {
        lemma_digit_run_end(s, from + 1);
    }
}

/// What reading an unsigned decimal at `from` gives: the value and the
/// position after the digit run, or nothing when no digit is there or the
/// run denotes more than a `u64` holds.
pub open spec fn parse_u64_spec(s: Seq<u8>, from: int) -> Option<(u64, int)> {
    let end = digit_run_end(s, from);
    if end == from {
        None
    } else if dec_val(s.subrange(from, end)) > u64::MAX {
        None
    } else {
        Some((dec_val(s.subrange(from, end)) as u64, end))
    }
}

fn byte_is_digit(s: &[u8], i: usize) -> (r: bool)
    requires
        i < s@.len(),
    ensures
        r == is_digit(s@[i as int]),
{
    let b = *vstd::slice::slice_index_get(s, i);
    48 <= b && b <= 57
}

/// Reads an unsigned decimal starting at `from`.
pub fn parse_u64_at(s: &[u8], from: usize) -> (r: Option<(u64, usize)>)
    requires
        from <= s@.len(),
    ensures
        match r {
            Some((v, end)) => parse_u64_spec(s@, from as int) == Some((v, end as int)),
            None => parse_u64_spec(s@, from as int) is None,
        },
{
    proof {
        lemma_digit_run_end(s@, from as int);
    }
    let ghost gend = digit_run_end(s@, from as int);
    let mut end: usize = from;
    while end < s.len() && byte_is_digit(s, end)
        invariant
            from <= end <= s@.len(),
            end <= gend,
            gend == digit_run_end(s@, from as int),
            from <= gend <= s@.len(),
            forall|j: int| from <= j < gend ==> is_digit(#[trigger] s@[j]),
            gend < s@.len() ==> !is_digit(s@[gend as int]),
        decreases s@.len() - end,
    {
        proof {
            if end as int == gend {
                assert(false);
            }
        }
        end = end + 1;
    }
    proof {
        assert(end as int == gend);
    }
    if end == from {
        return None;
    }
    let ghost digits = s@.subrange(from as int, gend);
    proof {
        assert(all_digits(digits));
        lemma_dec_val_nonneg(digits);
    }
    let mut acc: u128 = 0;
    let mut over: bool = false;
    let mut k: usize = from;
    while k < end
        invariant
            from <= k <= end,
            end as int == gend,
            gend == digit_run_end(s@, from as int),
            from <= gend <= s@.len(),
            digits == s@.subrange(from as int, gend),
            all_digits(digits),
            forall|j: int| from <= j < gend ==> is_digit(#[trigger] s@[j]),
            !over ==> acc == dec_val(digits.subrange(0, k - from)) && acc <= u64::MAX,
            over ==> dec_val(digits.subrange(0, k - from)) > u64::MAX,
        decreases end - k,
    {
        let d = *vstd::slice::slice_index_get(s, k);
        proof {
            let pre = digits.subrange(0, k - from);
            let post = digits.subrange(0, k + 1 - from);
            assert(post.drop_last() =~= pre);
            assert(post.last() == d);
            assert(all_digits(pre));
            lemma_dec_val_nonneg(pre);
        }
        if over {
        } else {
            let acc2: u128 = acc * 10 + ((d - 48) as u128);
            if acc2 > u64::MAX as u128 {
                over = true;
            } else {
                acc = acc2;
            }
        }
        k = k + 1;
    }
    proof {
        assert(digits.subrange(0, end - from) =~= digits);
    }
    if over {
        None
    } else {
        Some((acc as u64, end))
    }
}

// ------------------------------------------------------------------
// String escapes
// ------------------------------------------------------------------

/// How one byte is written inside a JSON string literal.
pub open spec fn escape_byte(b: u8) -> Seq<u8> {
    if b == 34 {
        seq![92u8, 34u8]
    } else if b == 92 {
        seq![92u8, 92u8]
    } else {
        seq![b]
    }
}

/// How a whole byte string is written inside a JSON string literal.
pub open spec fn escape_bytes(s: Seq<u8>) -> Seq<u8>
    decreases s.len(),
{
    if s.len() == 0 {
        Seq::empty()
    } else {
        escape_byte(s[0]) + escape_bytes(s.skip(1))
    }
}

pub proof fn lemma_escape_append(s: Seq<u8>, b: u8)
    ensures
        escape_bytes(s.push(b)) == escape_bytes(s) + escape_byte(b),
    decreases s.len(),
{
    if s.len() == 0 {
        assert(s.push(b)[0] == b);
        assert(s.push(b).skip(1) =~= Seq::<u8>::empty());
        assert(escape_bytes(Seq::<u8>::empty()) =~= Seq::<u8>::empty());
        assert(escape_bytes(s.push(b)) =~= escape_byte(b) + Seq::<u8>::empty());
        assert(escape_byte(b) + Seq::<u8>::empty() =~= escape_byte(b));
        assert(escape_bytes(s) + escape_byte(b) =~= escape_byte(b));
    } else {
        assert(s.push(b).skip(1) =~= s.skip(1).push(b));
        lemma_escape_append(s.skip(1), b);
        assert(escape_bytes(s.push(b)) =~= escape_bytes(s) + escape_byte(b));
    }
}

/// Writes `v` as the body of a JSON string literal.
pub fn escape_json(v: &[u8]) -> (r: Vec<u8>)
    ensures
        r@ == escape_bytes(v@),
{
    let mut r: Vec<u8> = Vec::new();
    let mut i: usize = 0;
    while i < v.len()
        invariant
            i <= v@.len(),
            r@ == escape_bytes(v@.subrange(0, i as int)),
        decreases v@.len() - i,
    {
        let b = *vstd::slice::slice_index_get(v, i);
        proof {
            assert(v@.subrange(0, i + 1) =~= v@.subrange(0, i as int).push(b));
            lemma_escape_append(v@.subrange(0, i as int), b);
        }
        if b == 34 || b == 92 {
            r.push(92);
            r.push(b);
        } else {
            r.push(b);
        }
        i = i + 1;
    }
    proof {
        assert(v@.subrange(0, v@.len() as int) =~= v@);
    }
    r
}

/// The byte a short escape stands for, if the code is one we accept.
pub open spec fn unescape_code(b: u8) -> Option<u8> {
    if b == 34 {
        Some(34u8)
    } else if b == 92 {
        Some(92u8)
    } else if b == 47 {
        Some(47u8)
    } else if b == 98 {
        Some(8u8)
    } else if b == 102 {
        Some(12u8)
    } else if b == 110 {
        Some(10u8)
    } else if b == 114 {
        Some(13u8)
    } else if b == 116 {
        Some(9u8)
    } else {
        None
    }
}

/// The value of one hexadecimal digit, either case.
pub open spec fn hex_val(b: u8) -> Option<int> {
    if 48 <= b <= 57 {
        Some((b - 48) as int)
    } else if 97 <= b <= 102 {
        Some((b - 87) as int)
    } else if 65 <= b <= 70 {
        Some((b - 55) as int)
    } else {
        None
    }
}

/// The value of the four hexadecimal digits starting at `i`.
pub open spec fn hex4_val(s: Seq<u8>, i: int) -> Option<int> {
    match (hex_val(s[i]), hex_val(s[i + 1]), hex_val(s[i + 2]), hex_val(s[i + 3])) {
        (Some(a), Some(b), Some(c), Some(d)) => Some(a * 4096 + b * 256 + c * 16 + d),
        _ => None,
    }
}

/// The UTF-8 encoding of one code point.
pub open spec fn utf8_enc(cp: int) -> Seq<u8> {
    if cp < 0x80 {
        seq![cp as u8]
    } else if cp < 0x800 {
        seq![(192 + cp / 64) as u8, (128 + cp % 64) as u8]
    } else if cp < 0x10000 {
        seq![(224 + cp / 4096) as u8, (128 + (cp / 64) % 64) as u8, (128 + cp % 64) as u8]
    } else {
        seq![
            (240 + cp / 262144) as u8,
            (128 + (cp / 4096) % 64) as u8,
            (128 + (cp / 64) % 64) as u8,
            (128 + cp % 64) as u8,
        ]
    }
}

/// Reads the body of a JSON string literal back into raw bytes.  A
/// `\uXXXX` escape yields the code point's UTF-8 bytes; a surrogate pair
/// must come whole and yields its joined code point.  `None` when a
/// backslash is dangling, carries a code we do not accept, or a surrogate
/// stands alone.
pub open spec fn unescape_bytes(s: Seq<u8>) -> Option<Seq<u8>>
    decreases s.len(),
{
    if s.len() == 0 {
        Some(Seq::empty())
    } else if s[0] == 92 {
        if s.len() < 2 {
            None
        } else if s[1] == 117 {
            if s.len() < 6 {
                None
            } else {
                match hex4_val(s, 2) {
                    None => None,
                    Some(u) => if 0xD800 <= u < 0xDC00 {
                        if s.len() < 12 || s[6] != 92 || s[7] != 117 {
                            None
                        } else {
                            match hex4_val(s, 8) {
                                None => None,
                                Some(u2) => if 0xDC00 <= u2 < 0xE000 {
                                    match unescape_bytes(s.skip(12)) {
                                        None => None,
                                        Some(t) => Some(
                                            utf8_enc(
                                                0x10000 + (u - 0xD800) * 1024 + (u2 - 0xDC00),
                                            ) + t,
                                        ),
                                    }
                                } else {
                                    None
                                },
                            }
                        }
                    } else if 0xDC00 <= u < 0xE000 {
                        None
                    } else {
                        match unescape_bytes(s.skip(6)) {
                            None => None,
                            Some(t) => Some(utf8_enc(u) + t),
                        }
                    },
                }
            }
        } else {
            match unescape_code(s[1]) {
                None => None,
                Some(d) => match unescape_bytes(s.skip(2)) {
                    None => None,
                    Some(t) => Some(seq![d] + t),
                },
            }
        }
    } else {
        match unescape_bytes(s.skip(1)) {
            None => None,
            Some(t) => Some(seq![s[0]] + t),
        }
    }
}

fn hex_digit(b: u8) -> (r: Option<u8>)
    ensures
        match r {
            Some(d) => hex_val(b) == Some(d as int) && d < 16,
            None => hex_val(b) is None,
        },
{
    if 48 <= b && b <= 57 {
        Some(b - 48)
    } else if 97 <= b && b <= 102 {
        Some(b - 87)
    } else if 65 <= b && b <= 70 {
        Some(b - 55)
    } else {
        None
    }
}

fn hex4_at(v: &[u8], i: usize) -> (r: Option<u32>)
    requires
        i + 4 <= v@.len(),
    ensures
        match r {
            Some(h) => hex4_val(v@, i as int) == Some(h as int) && h <= 0xFFFF,
            None => hex4_val(v@, i as int) is None,
        },
{
    let n = v.len();
    proof {
        assert(i + 4 <= n);
    }
    let a = match hex_digit(*vstd::slice::slice_index_get(v, i)) {
        Some(x) => x,
        None => {
            return None;
        },
    };
    let b = match hex_digit(*vstd::slice::slice_index_get(v, i + 1)) {
        Some(x) => x,
        None => {
            return None;
        },
    };
    let c = match hex_digit(*vstd::slice::slice_index_get(v, i + 2)) {
        Some(x) => x,
        None => {
            return None;
        },
    };
    let d = match hex_digit(*vstd::slice::slice_index_get(v, i + 3)) {
        Some(x) => x,
        None => {
            return None;
        },
    };
    Some((a as u32) * 4096 + (b as u32) * 256 + (c as u32) * 16 + (d as u32))
}

fn utf8_enc_exec(cp: u32) -> (r: Vec<u8>)
    requires
        cp <= 0x10FFFF,
    ensures
        r@ == utf8_enc(cp as int),
{
    let mut r: Vec<u8> = Vec::new();
    if cp < 0x80 {
        r.push(cp as u8);
    } else if cp < 0x800 {
        r.push(192 + (cp / 64) as u8);
        r.push(128 + (cp % 64) as u8);
    } else if cp < 0x10000 {
        r.push(224 + (cp / 4096) as u8);
        r.push(128 + ((cp / 64) % 64) as u8);
        r.push(128 + (cp % 64) as u8);
    } else {
        r.push(240 + (cp / 262144) as u8);
        r.push(128 + ((cp / 4096) % 64) as u8);
        r.push(128 + ((cp / 64) % 64) as u8);
        r.push(128 + (cp % 64) as u8);
    }
    proof {
        assert(r@ =~= utf8_enc(cp as int));
    }
    r
}

spec fn opt_concat(p: Seq<u8>, o: Option<Seq<u8>>) -> Option<Seq<u8>> {
    match o {
        Some(t) => Some(p + t),
        None => None,
    }
}

pub fn unescape_json(v: &[u8]) -> (r: Option<Vec<u8>>)
    ensures
        match r {
            Some(out) => unescape_bytes(v@) == Some(out@),
            None => unescape_bytes(v@) is None,
        },
{
    let mut out: Vec<u8> = Vec::new();
    let mut i: usize = 0;
    proof {
        assert(v@.skip(0) =~= v@);
        if unescape_bytes(v@) is Some {
            let t = unescape_bytes(v@).unwrap();
            assert(Seq::<u8>::empty() + t =~= t);
        }
    }
    while i < v.len()
        invariant
            i <= v@.len(),
            unescape_bytes(v@) == opt_concat(out@, unescape_bytes(v@.skip(i as int))),
        decreases v@.len() - i,
    {
        let b = *vstd::slice::slice_index_get(v, i);
        if b == 92 {
            if i + 1 >= v.len() {
                proof {
                    assert(v@.skip(i as int).len() == 1);
                    assert(v@.skip(i as int)[0] == 92);
                }
                return None;
            }
            let c = *vstd::slice::slice_index_get(v, i + 1);
            let ghost si = v@.skip(i as int);
            proof {
                assert(si[0] == 92);
                assert(si[1] == c);
                assert(si.skip(2) =~= v@.skip(i + 2));
            }
            if c == 117 {
                if v.len() - i < 6 {
                    proof {
                        assert(si.len() < 6);
                    }
                    return None;
                }
                proof {
                    assert(si[2] == v@[i + 2] && si[3] == v@[i + 3] && si[4] == v@[i + 4] && si[5]
                        == v@[i + 5]);
                    assert(hex4_val(si, 2) == hex4_val(v@, i + 2));
                }
                let h = match hex4_at(v, i + 2) {
                    Some(x) => x,
                    None => {
                        return None;
                    },
                };
                if 0xD800 <= h && h < 0xDC00 {
                    if v.len() - i < 12 {
                        proof {
                            assert(si.len() < 12);
                        }
                        return None;
                    }
                    let b6 = *vstd::slice::slice_index_get(v, i + 6);
                    let b7 = *vstd::slice::slice_index_get(v, i + 7);
                    proof {
                        assert(si[6] == b6);
                        assert(si[7] == b7);
                    }
                    if b6 != 92 || b7 != 117 {
                        return None;
                    }
                    proof {
                        assert(si[8] == v@[i + 8] && si[9] == v@[i + 9] && si[10] == v@[i + 10]
                            && si[11] == v@[i + 11]);
                        assert(hex4_val(si, 8) == hex4_val(v@, i + 8));
                    }
                    let h2 = match hex4_at(v, i + 8) {
                        Some(x) => x,
                        None => {
                            return None;
                        },
                    };
                    if !(0xDC00 <= h2 && h2 < 0xE000) {
                        return None;
                    }
                    let cp: u32 = 0x10000 + (h - 0xD800) * 1024 + (h2 - 0xDC00);
                    let mut enc = utf8_enc_exec(cp);
                    proof {
                        assert(si.skip(12) =~= v@.skip(i + 12));
                        if unescape_bytes(v@.skip(i + 12)) is Some {
                            let t = unescape_bytes(v@.skip(i + 12)).unwrap();
                            assert(out@ + (utf8_enc(cp as int) + t) =~= (out@ + utf8_enc(
                                cp as int,
                            )) + t);
                        }
                    }
                    out.append(&mut enc);
                    i = i + 12;
                } else if 0xDC00 <= h && h < 0xE000 {
                    return None;
                } else {
                    let mut enc = utf8_enc_exec(h);
                    proof {
                        assert(si.skip(6) =~= v@.skip(i + 6));
                        if unescape_bytes(v@.skip(i + 6)) is Some {
                            let t = unescape_bytes(v@.skip(i + 6)).unwrap();
                            assert(out@ + (utf8_enc(h as int) + t) =~= (out@ + utf8_enc(
                                h as int,
                            )) + t);
                        }
                    }
                    out.append(&mut enc);
                    i = i + 6;
                }
                continue;
            }
            let d: u8 = if c == 34 {
                34
            } else if c == 92 {
                92
            } else if c == 47 {
                47
            } else if c == 98 {
                8
            } else if c == 102 {
                12
            } else if c == 110 {
                10
            } else if c == 114 {
                13
            } else if c == 116 {
                9
            } else {
                return None;
            };
            proof {
                assert(unescape_code(c) == Some(d));
                if unescape_bytes(v@.skip(i + 2)) is Some {
                    let t = unescape_bytes(v@.skip(i + 2)).unwrap();
                    assert(out@ + (seq![d] + t) =~= out@.push(d) + t);
                }
            }
            out.push(d);
            i = i + 2;
        } else {
            proof {
                assert(v@.skip(i as int)[0] == b);
                assert(v@.skip(i as int).skip(1) =~= v@.skip(i + 1));
                if unescape_bytes(v@.skip(i + 1)) is Some {
                    let t = unescape_bytes(v@.skip(i + 1)).unwrap();
                    assert(out@ + (seq![b] + t) =~= out@.push(b) + t);
                }
            }
            out.push(b);
            i = i + 1;
        }
    }
    proof {
        assert(v@.skip(i as int) =~= Seq::<u8>::empty());
        assert(out@ + Seq::<u8>::empty() =~= out@);
    }
    Some(out)
}

/// Escaping never produces a body that fails to read back, and reading it
/// back gives the original bytes.
pub proof fn lemma_unescape_escape(s: Seq<u8>)
    ensures
        unescape_bytes(escape_bytes(s)) == Some(s),
    decreases s.len(),
{
    if s.len() == 0 {
    } else {
        lemma_unescape_escape(s.skip(1));
        let e = escape_bytes(s);
        let b = s[0];
        if b == 34 || b == 92 {
            assert(e[0] == 92);
            assert(e[1] == b);
            assert(e.skip(2) =~= escape_bytes(s.skip(1)));
            assert(seq![b] + s.skip(1) =~= s);
        } else {
            assert(e[0] == b);
            assert(b != 92);
            assert(e.skip(1) =~= escape_bytes(s.skip(1)));
            assert(seq![b] + s.skip(1) =~= s);
        }
    }
}

} // verus!
