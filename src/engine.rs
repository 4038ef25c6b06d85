//! One role message from text to outcome: parse, deduplicate, reconcile.

use vstd::prelude::*;

use crate::catalog::RoleCatalog;
use crate::command::{is_reset_text, parse_command, parsed_actions, Command};
use crate::dedup::{dedup, dedup_spec};
use crate::reconcile::{reconcile, reconciled, reset_roles, tracked_ids, ReconciliationResult};
use crate::reply::{result_text, summary, HELP_TEXT, RESET_TEXT};

verus! {

/// What a role message comes to.
#[derive(Debug)]
pub enum RoleOutcome {
    /// The message held no usable command; the member gets the usage help.
    Help,
    /// Every catalog role was dropped; these are the ids the member keeps.
    Reset(Vec<u64>),
    /// The message's intents were applied.
    Reconciled(ReconciliationResult),
}

/// The reply text of an outcome.
pub open spec fn reply_of(o: RoleOutcome) -> Seq<char> {
    match o {
        RoleOutcome::Help => HELP_TEXT@,
        RoleOutcome::Reset(_) => RESET_TEXT@,
        RoleOutcome::Reconciled(r) => result_text(r),
    }
}

/// Handles one message of a member holding `held`: a reset drops every
/// catalog role; intents are deduplicated, then applied in message order;
/// anything else gets the usage help and changes nothing.
pub fn process_message(catalog: &RoleCatalog, held: &Vec<u64>, text: &str) -> (r: RoleOutcome)
    ensures
        is_reset_text(text@) ==> (r matches RoleOutcome::Reset(kept) && kept@.to_set()
            == held@.to_set().difference(tracked_ids(catalog@.entries))),
        is_reset_text(text@) ==> (r matches RoleOutcome::Reset(kept) && forall|id: u64|
            tracked_ids(catalog@.entries).contains(id) ==> !kept@.contains(id)),
        !is_reset_text(text@) && parsed_actions(text@).len() == 0 ==> r is Help,
        !is_reset_text(text@) && parsed_actions(text@).len() > 0 ==> (r matches RoleOutcome::Reconciled(res)
            && reconciled(catalog@, held@, dedup_spec(parsed_actions(text@)), res)),
{
    match parse_command(text) {
        Command::Reset => RoleOutcome::Reset(reset_roles(catalog, held)),
        Command::NoActions => RoleOutcome::Help,
        Command::Actions(actions) => {
            let unique = dedup(&actions);
            RoleOutcome::Reconciled(reconcile(catalog, held, &unique))
        },
    }
}

impl RoleOutcome {
    /// The text to send back to the member.
    pub fn reply(&self) -> (s: String)
        ensures
            s@ == reply_of(*self),
    {
        match self {
            RoleOutcome::Help => HELP_TEXT.to_owned(),
            RoleOutcome::Reset(_) => RESET_TEXT.to_owned(),
            RoleOutcome::Reconciled(r) => summary(r),
        }
    }

    /// The full role set to commit for the member, if the outcome changes it.
    pub fn roles_to_commit(&self) -> (r: Option<Vec<u64>>)
        ensures
            self is Help ==> r is None,
            self matches RoleOutcome::Reset(kept) ==> (r matches Some(ids) && ids@ == kept@),
            self matches RoleOutcome::Reconciled(res) ==> ((res.added@.len() > 0 || res.removed@.len() > 0)
                ==> (r matches Some(ids) && ids@ == res.roles@)),
            self matches RoleOutcome::Reconciled(res) ==> ((res.added@.len() == 0 && res.removed@.len() == 0)
                ==> r is None),
    {
        match self {
            RoleOutcome::Help => None,
            RoleOutcome::Reset(kept) => Some(copy_ids(kept)),
            RoleOutcome::Reconciled(res) => if res.changed() {
                Some(copy_ids(&res.roles))
            } else {
                None
            },
        }
    }
}

fn copy_ids(v: &Vec<u64>) -> (r: Vec<u64>)
    ensures
        r@ == v@,
{
    let r = v.clone();
    assert(r@ =~= v@);
    r
}

} // verus!
