//! `zwlr_output_power_manager_v1` bookkeeping: which outputs are blanked
//! (DPMS off) and which protocol handles watch each output.
//!
//! Outputs and handles are the caller's integer ids. The backend call that
//! actually blanks a panel is the caller's too: it asks `power_unchanged`,
//! tries the backend, then records the outcome with `power_set`, or tells
//! the handles of `handles_of` that it failed.

use vstd::prelude::*;

verus! {

/// Version of the global.
pub const OUTPUT_POWER_VERSION: u32 = 1;

/// Wire value of `zwlr_output_power_v1.mode.off`.
pub const MODE_OFF: u32 = 0;
/// Wire value of `zwlr_output_power_v1.mode.on`.
pub const MODE_ON: u32 = 1;

/// Marker so the manager global and its resources dispatch here.
#[derive(Default)]
pub struct OutputPowerManagerUdata;

/// `s` without `x`.
pub open spec fn without_id(s: Seq<u64>, x: u64) -> Seq<u64>
    decreases s.len(),
{
    if s.len() == 0 {
        s
    } else if s.last() == x {
        without_id(s.drop_last(), x)
    } else {
        without_id(s.drop_last(), x).push(s.last())
    }
}

/// The (output, handle) pairs whose `handle` side (`by_handle`) or output
/// side is not `x`.
pub open spec fn pairs_without(hs: Seq<(u64, u64)>, x: u64, by_handle: bool) -> Seq<(u64, u64)>
    decreases hs.len(),
{
    if hs.len() == 0 {
        hs
    } else {
        let rest = pairs_without(hs.drop_last(), x, by_handle);
        let p = hs.last();
        if (if by_handle {
            p.1
        } else {
            p.0
        }) == x {
            rest
        } else {
            rest.push(p)
        }
    }
}

/// The handles watching output `o`, in order.
pub open spec fn handles_on(hs: Seq<(u64, u64)>, o: u64) -> Seq<u64>
    decreases hs.len(),
{
    if hs.len() == 0 {
        Seq::empty()
    } else if hs.last().0 == o {
        handles_on(hs.drop_last(), o).push(hs.last().1)
    } else {
        handles_on(hs.drop_last(), o)
    }
}

pub struct PowerView {
    /// Outputs currently DPMS-off. Missing means on.
    pub off: Seq<u64>,
    /// (output, handle) pairs.
    pub handles: Seq<(u64, u64)>,
}

pub struct OutputPowerManagerState {
    off: Vec<u64>,
    handles: Vec<(u64, u64)>,
}

impl View for OutputPowerManagerState {
    type V = PowerView;

    closed spec fn view(&self) -> PowerView {
        PowerView { off: self.off@, handles: self.handles@ }
    }
}

/// Each output is off at most once and each pair is recorded once.
pub open spec fn power_wf(p: PowerView) -> bool {
    p.off.no_duplicates() && p.handles.no_duplicates()
}

/// What a new handle is told.
#[derive(Clone, Copy, Debug, PartialEq, Eq, Structural)]
pub enum HandleReply {
    /// The output is gone or cannot be blanked.
    Failed,
    /// The output's mode: `true` for on.
    Mode(bool),
}

/// The mode of a `set_mode` request: `Some(true)` for on, `Some(false)`
/// for off, `None` for an invalid value (a protocol error).
pub open spec fn mode_spec(mode: u32) -> Option<bool> {
    if mode == MODE_ON {
        Some(true)
    } else if mode == MODE_OFF {
        Some(false)
    } else {
        None
    }
}

pub fn mode_from_wire(mode: u32) -> (r: Option<bool>)
    ensures
        r == mode_spec(mode),
{
    if mode == MODE_ON {
        Some(true)
    } else if mode == MODE_OFF {
        Some(false)
    } else {
        None
    }
}

proof fn lemma_without_id(s: Seq<u64>, x: u64, y: u64)
    ensures
        without_id(s, x).contains(y) <==> (s.contains(y) && y != x),
        s.no_duplicates() ==> without_id(s, x).no_duplicates(),
    decreases s.len(),
{
    if s.len() > 0 {
        let d = s.drop_last();
        lemma_without_id(d, x, y);
        lemma_without_id(d, x, s.last());
        let r = without_id(d, x);
        if s.contains(y) && s.last() != y {
            let i = choose|i: int| 0 <= i < s.len() && s[i] == y;
            assert(d[i] == y);
        }
        if d.contains(y) {
            let i = choose|i: int| 0 <= i < d.len() && d[i] == y;
            assert(s[i] == y);
        }
        if s.no_duplicates() && d.contains(s.last()) {
            let i = choose|i: int| 0 <= i < d.len() && d[i] == s.last();
            assert(s[i] == s[s.len() - 1]);
        }
        if s.last() != x {
            let q = r.push(s.last());
            assert(q[r.len() as int] == s.last());
            if q.contains(y) && y != s.last() {
                let i = choose|i: int| 0 <= i < q.len() && q[i] == y;
                assert(r[i] == y);
            }
            if r.contains(y) {
                let i = choose|i: int| 0 <= i < r.len() && r[i] == y;
                assert(q[i] == y);
            }
        }
    }
}

proof fn lemma_pairs_without(hs: Seq<(u64, u64)>, x: u64, by_handle: bool, p: (u64, u64))
    ensures
        pairs_without(hs, x, by_handle).contains(p) <==> (hs.contains(p) && (if by_handle {
            p.1
        } else {
            p.0
        }) != x),
        hs.no_duplicates() ==> pairs_without(hs, x, by_handle).no_duplicates(),
    decreases hs.len(),
{
    if hs.len() > 0 {
        let d = hs.drop_last();
        lemma_pairs_without(d, x, by_handle, p);
        lemma_pairs_without(d, x, by_handle, hs.last());
        let r = pairs_without(d, x, by_handle);
        if hs.contains(p) && hs.last() != p {
            let i = choose|i: int| 0 <= i < hs.len() && hs[i] == p;
            assert(d[i] == p);
        }
        if d.contains(p) {
            let i = choose|i: int| 0 <= i < d.len() && d[i] == p;
            assert(hs[i] == p);
        }
        if hs.no_duplicates() && d.contains(hs.last()) {
            let i = choose|i: int| 0 <= i < d.len() && d[i] == hs.last();
            assert(hs[i] == hs[hs.len() - 1]);
        }
        if r.len() < pairs_without(hs, x, by_handle).len() {
            let q = r.push(hs.last());
            assert(q[r.len() as int] == hs.last());
            if q.contains(p) && p != hs.last() {
                let i = choose|i: int| 0 <= i < q.len() && q[i] == p;
                assert(r[i] == p);
            }
            if r.contains(p) {
                let i = choose|i: int| 0 <= i < r.len() && r[i] == p;
                assert(q[i] == p);
            }
        }
    }
}

proof fn lemma_handles_on_empty(hs: Seq<(u64, u64)>, o: u64)
    ensures
        handles_on(pairs_without(hs, o, false), o) == Seq::<u64>::empty(),
    decreases hs.len(),
{
    if hs.len() > 0 {
        lemma_handles_on_empty(hs.drop_last(), o);
        let r = pairs_without(hs.drop_last(), o, false);
        if hs.last().0 != o {
            let q = r.push(hs.last());
            assert(q.drop_last() =~= r);
        }
    }
}

fn contains_id(s: &Vec<u64>, x: u64) -> (b: bool)
    ensures
        b == s@.contains(x),
{
    let mut k: usize = 0;
    while k < s.len()
        invariant
            0 <= k <= s@.len(),
            forall|j: int| 0 <= j < k ==> s@[j] != x,
        decreases s@.len() - k,
    {
        if s[k] == x {
            return true;
        }
        k = k + 1;
    }
    false
}

impl OutputPowerManagerState {
    /// Nothing blanked, no handles.
    pub fn new() -> (s: Self)
        ensures
            s@.off == Seq::<u64>::empty(),
            s@.handles == Seq::<(u64, u64)>::empty(),
            power_wf(s@),
    {
        OutputPowerManagerState { off: Vec::new(), handles: Vec::new() }
    }

    pub fn is_off(&self, output: u64) -> (b: bool)
        ensures
            b == self@.off.contains(output),
    {
        contains_id(&self.off, output)
    }

    /// The handles watching `output`, to tell of a mode change or failure.
    pub fn handles_of(&self, output: u64) -> (v: Vec<u64>)
        ensures
            v@ == handles_on(self@.handles, output),
    {
        let ghost hs = self@.handles;
        let mut v: Vec<u64> = Vec::new();
        let mut k: usize = 0;
        assert(hs.take(0) =~= Seq::<(u64, u64)>::empty());
        while k < self.handles.len()
            invariant
                0 <= k <= hs.len(),
                hs == self@.handles,
                v@ == handles_on(hs.take(k as int), output),
            decreases hs.len() - k,
        {
            assert(hs.take(k + 1).drop_last() =~= hs.take(k as int));
            if self.handles[k].0 == output {
                v.push(self.handles[k].1);
            }
            k = k + 1;
        }
        assert(hs.take(k as int) =~= hs);
        v
    }

    /// A new handle for `output` (`None` when its `wl_output` is gone) that
    /// the backend can (`supported`) or cannot blank: it is told the mode
    /// and watches the output, or is told of failure.
    pub fn bind_handle(&mut self, output: Option<u64>, supported: bool, handle: u64) -> (r:
        HandleReply)
        requires
            power_wf(old(self)@),
        ensures
            power_wf(final(self)@),
            final(self)@.off == old(self)@.off,
            match output {
                Some(o) => if supported {
                    &&& r == HandleReply::Mode(!old(self)@.off.contains(o))
                    &&& final(self)@.handles == if old(self)@.handles.contains((o, handle)) {
                        old(self)@.handles
                    } else {
                        old(self)@.handles.push((o, handle))
                    }
                } else {
                    r == HandleReply::Failed && final(self)@.handles == old(self)@.handles
                },
                None => r == HandleReply::Failed && final(self)@.handles == old(self)@.handles,
            },
    {
        match output {
            Some(o) => {
                if !supported {
                    return HandleReply::Failed;
                }
                let on = !self.is_off(o);
                let mut present = false;
                let mut k: usize = 0;
                while k < self.handles.len()
                    invariant
                        0 <= k <= self@.handles.len(),
                        present == (exists|j: int| 0 <= j < k && self@.handles[j] == (o, handle)),
                    decreases self@.handles.len() - k,
                {
                    if self.handles[k].0 == o && self.handles[k].1 == handle {
                        present = true;
                    }
                    k = k + 1;
                }
                if !present {
                    let ghost before = self@.handles;
                    self.handles.push((o, handle));
                    proof {
                        assert forall|i: int, j: int|
                            0 <= i < j < self@.handles.len() implies self@.handles[i]
                            != self@.handles[j] by {
                            if j == before.len() {
                                assert(self@.handles[i] == before[i]);
                            }
                        }
                    }
                } else {
                    assert(self@.handles.contains((o, handle)));
                }
                HandleReply::Mode(on)
            },
            None => HandleReply::Failed,
        }
    }

    /// A handle went away.
    pub fn remove_handle(&mut self, handle: u64)
        requires
            power_wf(old(self)@),
        ensures
            power_wf(final(self)@),
            final(self)@.off == old(self)@.off,
            final(self)@.handles == pairs_without(old(self)@.handles, handle, true),
    {
        self.handles = pairs_without_exec(&self.handles, handle, true);
        proof {
            lemma_pairs_without(old(self)@.handles, handle, true, (0, 0));
        }
    }

    /// The output left: it is no longer off and no handle watches it; the
    /// handles that did are returned, to be told of failure.
    pub fn output_removed(&mut self, output: u64) -> (failed: Vec<u64>)
        requires
            power_wf(old(self)@),
        ensures
            power_wf(final(self)@),
            failed@ == handles_on(old(self)@.handles, output),
            final(self)@.handles == pairs_without(old(self)@.handles, output, false),
            final(self)@.off == without_id(old(self)@.off, output),
    {
        let failed = self.handles_of(output);
        self.handles = pairs_without_exec(&self.handles, output, false);
        self.off = without_id_exec(&self.off, output);
        proof {
            lemma_pairs_without(old(self)@.handles, output, false, (0, 0));
            lemma_without_id(old(self)@.off, output, 0);
        }
        failed
    }

    /// A request to set `output` to `on` that changes nothing.
    pub fn power_unchanged(&self, output: u64, on: bool) -> (b: bool)
        ensures
            b == (self@.off.contains(output) == !on),
    {
        self.is_off(output) == !on
    }

    /// The backend set `output` to `on`: record it, and return the handles
    /// to tell the new mode.
    pub fn power_set(&mut self, output: u64, on: bool) -> (notify: Vec<u64>)
        requires
            power_wf(old(self)@),
        ensures
            power_wf(final(self)@),
            final(self)@.handles == old(self)@.handles,
            final(self)@.off == if on {
                without_id(old(self)@.off, output)
            } else if old(self)@.off.contains(output) {
                old(self)@.off
            } else {
                old(self)@.off.push(output)
            },
            notify@ == handles_on(old(self)@.handles, output),
    {
        if on {
            self.off = without_id_exec(&self.off, output);
            proof {
                lemma_without_id(old(self)@.off, output, 0);
            }
        } else if !self.is_off(output) {
            let ghost before = self@.off;
            self.off.push(output);
            proof {
                assert forall|i: int, j: int|
                    0 <= i < j < self@.off.len() implies self@.off[i] != self@.off[j] by {
                    if j == before.len() {
                        assert(self@.off[i] == before[i]);
                    }
                }
            }
        }
        self.handles_of(output)
    }

    /// The blanked outputs, to wake on input; empty when none is off.
    pub fn wake_targets(&self) -> (v: Vec<u64>)
        ensures
            v@ == self@.off,
    {
        self.off.clone()
    }

    /// Input while outputs are blanked wakes them all and is consumed:
    /// whether to swallow the input, and the outputs to power on (each
    /// through the backend, then `power_set`). Nothing is swallowed or woken
    /// when every output is on.
    pub fn wake_outputs_if_off(&self) -> (r: (bool, Vec<u64>))
        ensures
            r.0 == (self@.off.len() > 0),
            r.1@ == self@.off,
    {
        let targets = self.wake_targets();
        (targets.len() > 0, targets)
    }
}

fn without_id_exec(s: &Vec<u64>, x: u64) -> (r: Vec<u64>)
    ensures
        r@ == without_id(s@, x),
{
    let mut out: Vec<u64> = Vec::new();
    let mut k: usize = 0;
    assert(s@.take(0) =~= Seq::<u64>::empty());
    while k < s.len()
        invariant
            0 <= k <= s@.len(),
            out@ == without_id(s@.take(k as int), x),
        decreases s@.len() - k,
    {
        assert(s@.take(k + 1).drop_last() =~= s@.take(k as int));
        if s[k] != x {
            out.push(s[k]);
        }
        k = k + 1;
    }
    assert(s@.take(k as int) =~= s@);
    out
}

fn pairs_without_exec(hs: &Vec<(u64, u64)>, x: u64, by_handle: bool) -> (r: Vec<(u64, u64)>)
    ensures
        r@ == pairs_without(hs@, x, by_handle),
{
    let mut out: Vec<(u64, u64)> = Vec::new();
    let mut k: usize = 0;
    assert(hs@.take(0) =~= Seq::<(u64, u64)>::empty());
    while k < hs.len()
        invariant
            0 <= k <= hs@.len(),
            out@ == pairs_without(hs@.take(k as int), x, by_handle),
        decreases hs@.len() - k,
    {
        assert(hs@.take(k + 1).drop_last() =~= hs@.take(k as int));
        let p = hs[k];
        let key = if by_handle {
            p.1
        } else {
            p.0
        };
        if key != x {
            out.push(p);
        }
        k = k + 1;
    }
    assert(hs@.take(k as int) =~= hs@);
    out
}

/// Setting an output's power records it: off after an off request, on
/// after an on request, and the same request again changes nothing.
pub proof fn lemma_power_set(off: Seq<u64>, output: u64, on: bool)
    ensures
        ({
            let after = if on {
                without_id(off, output)
            } else if off.contains(output) {
                off
            } else {
                off.push(output)
            };
            &&& after.contains(output) == !on
        }),
{
    lemma_without_id(off, output, output);
    if !on && !off.contains(output) {
        assert(off.push(output)[off.len() as int] == output);
    }
}

/// A removed output is on and watched by no handle; a removed handle
/// watches nothing.
pub proof fn lemma_removed(p: PowerView, output: u64, handle: u64)
    ensures
        !without_id(p.off, output).contains(output),
        handles_on(pairs_without(p.handles, output, false), output) == Seq::<u64>::empty(),
        forall|o: u64| !#[trigger] pairs_without(p.handles, handle, true).contains((o, handle)),
{
    lemma_without_id(p.off, output, output);
    lemma_handles_on_empty(p.handles, output);
    assert forall|o: u64| !#[trigger] pairs_without(p.handles, handle, true).contains((o, handle)) by {
        lemma_pairs_without(p.handles, handle, true, (o, handle));
    }
}

} // verus!
