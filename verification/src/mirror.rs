//! The transcript mirror a chat document keeps for its watchers: with no
//! watcher a change only marks the mirror stale (and empties it), with
//! watchers it republishes at once, and a new watcher refreshes a stale
//! mirror before it reads.

use vstd::prelude::*;

verus! {

/// What the mirror does to its watch channel.
#[derive(Clone, Copy, Debug, PartialEq, Eq, Structural)]
pub enum MirrorAction {
    /// Read the transcript and send it.
    Publish,
    /// Send an empty transcript.
    Clear,
    /// Leave the channel as it is.
    Keep,
}

/// The mirror after the document changed: stale and cleared when nobody
/// watches, otherwise fresh and republished. Returns (stale, action).
pub fn on_document_change(watchers: usize) -> (r: (bool, MirrorAction))
    ensures
        watchers == 0 ==> r == (true, MirrorAction::Clear),
        watchers > 0 ==> r == (false, MirrorAction::Publish),
{
    if watchers == 0 {
        (true, MirrorAction::Clear)
    } else {
        (false, MirrorAction::Publish)
    }
}

/// The mirror when a watcher subscribes: a stale mirror is republished
/// first. Returns (stale, action).
pub fn on_watch(stale: bool) -> (r: (bool, MirrorAction))
    ensures
        stale ==> r == (false, MirrorAction::Publish),
        !stale ==> r == (false, MirrorAction::Keep),
{
    if stale {
        (false, MirrorAction::Publish)
    } else {
        (false, MirrorAction::Keep)
    }
}

/// The mirror after recovery marked abandoned streams: republished when any
/// message changed. Returns (stale, action).
pub fn on_recovery(stale: bool, stamped: usize) -> (r: (bool, MirrorAction))
    ensures
        stamped > 0 ==> r == (false, MirrorAction::Publish),
        stamped == 0 ==> r == (stale, MirrorAction::Keep),
{
    if stamped > 0 {
        (false, MirrorAction::Publish)
    } else {
        (stale, MirrorAction::Keep)
    }
}

} // verus!
