use vstd::prelude::*;

mod bangs;
mod codec;
mod machine;
mod storage;

pub use bangs::Bang;
pub use bangs::BangView;
pub use codec::StorageFile;
pub use codec::find_first;
pub use codec::find_in;
pub use codec::remove_all;
pub use codec::remove_from;
pub use codec::append_to;
pub use codec::encode;
pub use codec::decode;
pub use codec::encode_spec;
pub use codec::decode_spec;
pub use codec::fresh_file;
pub use codec::lemma_round_trip;
pub use codec::lemma_fresh_file_empty;
pub use codec::lemma_add_then_find;
pub use codec::lemma_remove_then_find;
pub use codec::lemma_remove_all_drops_alias;
pub use machine::lemma_ensure_exists_idempotent;
pub use machine::lemma_query_run;
pub use machine::lemma_mutation_run;
pub use machine::lemma_remove_nonexistent_run;
pub use machine::lemma_add_then_find_runs;
pub use machine::lemma_remove_then_find_runs;
pub use machine::lemma_early_failure_fails_fast;
pub use machine::lemma_late_failure_restores;
pub use machine::lemma_create_on_missing_run;
pub use machine::run_from_start;
pub use machine::run_ok;
pub use machine::apply_action;
pub use machine::ok_event;
pub use machine::step_spec;
pub use machine::init_machine;
pub use machine::read_step;
pub use machine::success_outcome;
pub use machine::halt_step;
pub use machine::FsView;
pub use machine::ActionView;
pub use machine::EventView;
pub use machine::MachineView;
pub use machine::OutcomeView;
pub use machine::PhaseView;
pub use machine::Phase;
pub use machine::StoreErrorView;
pub use machine::StoreOpView;
pub use machine::Action;
pub use machine::Event;
pub use machine::Machine;
pub use machine::Outcome;
pub use machine::StoreError;
pub use machine::StoreOp;
pub use storage::Storage;

verus! {

} // verus!
