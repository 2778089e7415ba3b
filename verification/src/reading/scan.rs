//! Scanning: the run of bytes of one kind at the front of an input.

use vstd::prelude::*;

verus! {

/// The length of the longest run of bytes of a kind at the front of
/// `input`.
pub open spec fn run_len(input: Seq<u8>, kind: spec_fn(u8) -> bool) -> nat
    decreases input.len(),
{
    if input.len() == 0 || !kind(input[0]) {
        0
    } else {
        1 + run_len(input.drop_first(), kind)
    }
}

/// Whether input ends a run that stands before it: it is empty or begins
/// with a byte of another kind.
pub open spec fn ends_run(input: Seq<u8>, kind: spec_fn(u8) -> bool) -> bool {
    input.len() == 0 || !kind(input[0])
}

/// Whether every byte is of a kind.
pub open spec fn all_of(bytes: Seq<u8>, kind: spec_fn(u8) -> bool) -> bool {
    forall|i: int| 0 <= i < bytes.len() ==> kind(#[trigger] bytes[i])
}

/// The run at the front of bytes of a kind that are followed by the end
/// of a run is those bytes.
pub proof fn lemma_run_len(run: Seq<u8>, rest: Seq<u8>, kind: spec_fn(u8) -> bool)
    requires
        all_of(run, kind),
        ends_run(rest, kind),
    ensures
        run_len(run + rest, kind) == run.len(),
        (run + rest).subrange(0, run.len() as int) == run,
        (run + rest).skip(run.len() as int) == rest,
    decreases run.len(),
{
    assert((run + rest).subrange(0, run.len() as int) =~= run);
    assert((run + rest).skip(run.len() as int) =~= rest);
    if run.len() == 0 {
        assert(run + rest =~= rest);
    } else {
        assert((run + rest)[0] == run[0]);
        assert((run + rest).drop_first() =~= run.drop_first() + rest);
        assert forall|i: int| 0 <= i < run.drop_first().len() implies kind(
            #[trigger] run.drop_first()[i],
        ) by {
            assert(run.drop_first()[i] == run[i + 1]);
        }
        lemma_run_len(run.drop_first(), rest, kind);
    }
}

} // verus!
