//! Commands sent to tmux.

use crate::tmux::types::PaneId;
use vstd::prelude::*;
use vstd::string::StringExecFns;

verus! {

/// The tmux arguments that type `keys` into the pane `pane_id`.
pub fn send_keys(pane_id: &PaneId, keys: &str) -> (r: Vec<String>)
    ensures
        r@.map_values(|s: String| s@) == seq!["send-keys"@, "-t"@, pane_id@, keys@],
{
    let mut r: Vec<String> = Vec::new();
    r.push(String::from_str("send-keys"));
    r.push(String::from_str("-t"));
    r.push(String::from_str(pane_id.as_str()));
    r.push(String::from_str(keys));
    assert(r@.map_values(|s: String| s@) =~= seq!["send-keys"@, "-t"@, pane_id@, keys@]);
    r
}

} // verus!
