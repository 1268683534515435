use vstd::prelude::*;

verus! {

/// One step of handling what a native function returned. The data buffer is
/// named by its address and length as the call returned them.
#[derive(Debug, Clone, Copy, PartialEq, Eq)]
pub enum BridgeStep {
    /// Decode the data buffer as UTF-8 JSON with `JSON.parse`.
    ParseJson { ptr: usize, len: usize },
    /// Hand the data buffer back to the library's free function.
    Free { ptr: usize, len: usize },
    /// Return the parsed value to the script.
    ReturnParsed,
    /// Return `undefined` to the script.
    ReturnUndefined,
    /// Throw the parsed value (by convention `{error, code}`) as an exception.
    ThrowParsed,
    /// Throw an error that carries the status code.
    ThrowCode { code: i32 },
}

/// Whether a call result carries data to read.
pub open spec fn has_data(ptr: usize, len: usize) -> bool {
    ptr != 0 && len > 0
}

/// The steps after a native call returned `(ok, data, code)`: the data, when
/// there is some, is read before anything else; the buffer is freed exactly
/// once with the address and length the call returned; a result with `ok`
/// false is thrown.
pub open spec fn bridge_steps(ok: bool, ptr: usize, len: usize, code: i32) -> Seq<BridgeStep> {
    if has_data(ptr, len) {
        seq![
            BridgeStep::ParseJson { ptr, len },
            BridgeStep::Free { ptr, len },
            if ok {
                BridgeStep::ReturnParsed
            } else {
                BridgeStep::ThrowParsed
            },
        ]
    } else {
        seq![
            BridgeStep::Free { ptr, len },
            if ok {
                BridgeStep::ReturnUndefined
            } else {
                BridgeStep::ThrowCode { code }
            },
        ]
    }
}

/// The steps that handle the result of one native call, in order.
pub fn call_result_steps(ok: bool, ptr: usize, len: usize, code: i32) -> (r: Vec<BridgeStep>)
    ensures
        r@ == bridge_steps(ok, ptr, len, code),
{
    let mut r: Vec<BridgeStep> = Vec::new();
    if ptr != 0 && len > 0 {
        r.push(BridgeStep::ParseJson { ptr, len });
        r.push(BridgeStep::Free { ptr, len });
        if ok {
            r.push(BridgeStep::ReturnParsed);
        } else {
            r.push(BridgeStep::ThrowParsed);
        }
    } else {
        r.push(BridgeStep::Free { ptr, len });
        if ok {
            r.push(BridgeStep::ReturnUndefined);
        } else {
            r.push(BridgeStep::ThrowCode { code });
        }
    }
    assert(r@ =~= bridge_steps(ok, ptr, len, code));
    r
}

/// The positions of the free steps among `steps`.
pub open spec fn free_positions(steps: Seq<BridgeStep>) -> Set<int> {
    Set::new(|i: int| 0 <= i < steps.len() && steps[i] is Free)
}

/// For every result of a native call, the free function is called exactly once,
/// with exactly the address and length that the call returned, and after the
/// data was read.
pub proof fn lemma_free_exactly_once(ok: bool, ptr: usize, len: usize, code: i32)
    ensures
        ({
            let steps = bridge_steps(ok, ptr, len, code);
            let f = if has_data(ptr, len) {
                1int
            } else {
                0int
            };
            &&& free_positions(steps) == set![f]
            &&& steps[f] == BridgeStep::Free { ptr, len }
            &&& forall|i: int| 0 <= i < steps.len() && #[trigger] steps[i] is ParseJson ==> i < f
        }),
{
    let steps = bridge_steps(ok, ptr, len, code);
    let f = if has_data(ptr, len) {
        1int
    } else {
        0int
    };
    assert(free_positions(steps) =~= set![f]);
}

} // verus!
