//! A finite state machine engine with opaque integer-labeled states and
//! events, a transition table, and typed payload dispatch to registered
//! callbacks.

mod dispatch;
mod error;
mod machine;
mod payload;
mod table;

pub use dispatch::{CallbackEntry, Invocation, PayloadFilter, TriggerKey};
pub use dispatch::{dispatch_invocations, entry_fires, filter_admits, fired_from};
pub use dispatch::{
    lemma_any_state_callback_fires, lemma_dispatch_order, lemma_no_payload_callback_fires,
    lemma_other_state_callback_skipped, lemma_typed_callback_fires_iff_type_matches,
};
pub use error::{MachineError, MachineResult};
pub use machine::{Machine, MachineModel};
pub use machine::{
    event_known, initial_model, spec_define, spec_define_many, spec_register, spec_trigger,
    state_known,
};
pub use machine::{
    lemma_any_state_callback_fires_on_transition, lemma_define_then_trigger_succeeds,
    lemma_no_payload_callback_fires_on_entry, lemma_redefine_overwrites,
    lemma_unknown_event_rejected, lemma_unreachable_state_rejected,
};
pub use payload::{Payload, PayloadTag, spec_tag};
pub use table::{StateSet, TransitionTable, set_elems, table_entries};

use vstd::prelude::*;

verus! {

} // verus!
