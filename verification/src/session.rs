//! The order in which the ways of finding an episode are tried.

use vstd::prelude::*;

verus! {

/// How far the search for the episode has come.
#[derive(Clone, Copy, Debug, PartialEq, Eq, Structural)]
pub enum Phase {
    /// Nothing is known of what is played.
    Start,
    /// The library has been asked about the item.
    Probing,
    /// The catalog is being searched by the item's metadata.
    Resolving,
    /// The catalog has been asked for a match by content hash; `remember`
    /// says whether the answer is to be written down for the item.
    Matching { remember: bool },
    /// The search is over.
    Finished,
}

/// What has happened since the last step.
#[derive(Clone, Copy, Debug, PartialEq, Eq, Structural)]
pub enum Event {
    /// Playback began; `http` says whether it is streamed over HTTP.
    Opened { http: bool },
    /// The library has answered: `available` says whether it knows the
    /// item, and `cached` holds the episode written down for it before.
    Described { available: bool, cached: Option<usize> },
    /// The search by metadata has ended, with an episode or without.
    Resolved { episode: Option<usize> },
    /// The match by content hash has ended, with an episode or without.
    Matched { episode: Option<usize> },
    /// The library could not be asked.
    Unreachable,
}

/// Why the search ended without an episode.
#[derive(Clone, Copy, Debug, PartialEq, Eq, Structural)]
pub enum Failure {
    /// The episode written down or found is the number zero, which names
    /// none.
    NoMatchingResult,
    /// The library could not be asked.
    MetadataUnavailable,
    /// The match by content hash gave no episode.
    MatchFailed,
    /// The event cannot follow the phase.
    OutOfTurn,
}

/// What is to be done next.
#[derive(Clone, Copy, Debug, PartialEq, Eq, Structural)]
pub enum Action {
    /// Hash the local file and ask the catalog for a match.
    MatchLocalFile,
    /// Ask the library about the item behind the URL.
    FetchEpisodeInfo,
    /// Search the catalog by the item's metadata.
    ResolveByInfo,
    /// Hash the stream and ask the catalog for a match.
    MatchStream,
    /// Write the episode down for the item, then show its comments.
    RememberAndPlay { episode: usize },
    /// Write the number down for the item and give up: it names no
    /// episode.
    RememberAndAbort { episode: usize },
    /// Show the comments of the episode.
    Play { episode: usize },
    /// Give up.
    Abort { failure: Failure },
}

/// The phase that follows `phase` on `event`, and what is to be done.
pub open spec fn step(phase: Phase, event: Event) -> (Phase, Action) {
    match (phase, event) {
        (Phase::Start, Event::Opened { http }) => if http {
            (Phase::Probing, Action::FetchEpisodeInfo)
        } else {
            (Phase::Matching { remember: false }, Action::MatchLocalFile)
        },
        (Phase::Probing, Event::Described { available, cached }) => if !available {
            (Phase::Matching { remember: false }, Action::MatchStream)
        } else {
            match cached {
                None => (Phase::Resolving, Action::ResolveByInfo),
                Some(episode) => if episode == 0 {
                    (Phase::Finished, Action::Abort { failure: Failure::NoMatchingResult })
                } else {
                    (Phase::Finished, Action::Play { episode })
                },
            }
        },
        (Phase::Probing, Event::Unreachable) => (
            Phase::Finished,
            Action::Abort { failure: Failure::MetadataUnavailable },
        ),
        (Phase::Resolving, Event::Resolved { episode }) => match episode {
            None => (Phase::Matching { remember: true }, Action::MatchStream),
            Some(episode) => (Phase::Finished, kept(episode)),
        },
        (Phase::Matching { remember }, Event::Matched { episode }) => match episode {
            None => (Phase::Finished, Action::Abort { failure: Failure::MatchFailed }),
            Some(episode) => if remember {
                (Phase::Finished, kept(episode))
            } else {
                (Phase::Finished, Action::Play { episode })
            },
        },
        _ => (Phase::Finished, Action::Abort { failure: Failure::OutOfTurn }),
    }
}

/// What is done with a number found for an item that the library knows:
/// it is written down, and shown unless it is zero.
pub open spec fn kept(episode: usize) -> Action {
    if episode == 0 {
        Action::RememberAndAbort { episode }
    } else {
        Action::RememberAndPlay { episode }
    }
}

fn keep(episode: usize) -> (action: Action)
    ensures
        action == kept(episode),
{
    if episode == 0 {
        Action::RememberAndAbort { episode }
    } else {
        Action::RememberAndPlay { episode }
    }
}

/// Decides what follows `phase` on `event`.
pub fn advance(phase: Phase, event: Event) -> (next: (Phase, Action))
    ensures
        next == step(phase, event),
{
    let out_of_turn: (Phase, Action) = (
        Phase::Finished,
        Action::Abort { failure: Failure::OutOfTurn },
    );
    match phase {
        Phase::Start => match event {
            Event::Opened { http } => if http {
                (Phase::Probing, Action::FetchEpisodeInfo)
            } else {
                (Phase::Matching { remember: false }, Action::MatchLocalFile)
            },
            _ => out_of_turn,
        },
        Phase::Probing => match event {
            Event::Described { available, cached } => if !available {
                (Phase::Matching { remember: false }, Action::MatchStream)
            } else {
                match cached {
                    None => (Phase::Resolving, Action::ResolveByInfo),
                    Some(episode) => if episode == 0 {
                        (Phase::Finished, Action::Abort { failure: Failure::NoMatchingResult })
                    } else {
                        (Phase::Finished, Action::Play { episode })
                    },
                }
            },
            Event::Unreachable => (
                Phase::Finished,
                Action::Abort { failure: Failure::MetadataUnavailable },
            ),
            _ => out_of_turn,
        },
        Phase::Resolving => match event {
            Event::Resolved { episode } => match episode {
                None => (Phase::Matching { remember: true }, Action::MatchStream),
                Some(episode) => (Phase::Finished, keep(episode)),
            },
            _ => out_of_turn,
        },
        Phase::Matching { remember } => match event {
            Event::Matched { episode } => match episode {
                None => (Phase::Finished, Action::Abort { failure: Failure::MatchFailed }),
                Some(episode) => if remember {
                    (Phase::Finished, keep(episode))
                } else {
                    (Phase::Finished, Action::Play { episode })
                },
            },
            _ => out_of_turn,
        },
        Phase::Finished => out_of_turn,
    }
}

/// How many steps a search in `phase` can still take.
pub open spec fn steps_left(phase: Phase) -> nat {
    match phase {
        Phase::Start => 4,
        Phase::Probing => 3,
        Phase::Resolving => 2,
        Phase::Matching { .. } => 1,
        Phase::Finished => 0,
    }
}

/// Every step brings the search nearer to its end: it is over after four
/// steps at most.
pub proof fn lemma_search_ends(phase: Phase, event: Event)
    requires
        phase != Phase::Finished,
    ensures
        steps_left(step(phase, event).0) < steps_left(phase),
{
}

/// The catalog is searched by metadata only where the library knows the
/// item and no episode is written down for it.
pub proof fn lemma_lookup_before_search(phase: Phase, event: Event)
    requires
        step(phase, event).1 == Action::ResolveByInfo,
    ensures
        phase == Phase::Probing,
        event == (Event::Described { available: true, cached: None }),
{
}

/// An episode that is written down for a known item is used as it is,
/// without any search.
pub proof fn lemma_cached_episode_is_used(episode: usize)
    requires
        episode != 0,
    ensures
        step(Phase::Probing, Event::Described { available: true, cached: Some(episode) }) == (
            Phase::Finished,
            Action::Play { episode },
        ),
{
}

/// The content hash is the only way for what is not streamed and for what
/// the library does not know, and the one way left when the search by
/// metadata has failed; when it fails, the search is over.
pub proof fn lemma_hash_is_last_resort(phase: Phase, event: Event)
    ensures
        step(phase, event).1 == Action::MatchLocalFile <==> phase == Phase::Start && event == (
            Event::Opened { http: false }
        ),
        step(phase, event).1 == Action::MatchStream <==> (phase == Phase::Probing && (
            event matches Event::Described { available, .. } && !available)) || (phase
            == Phase::Resolving && event == (Event::Resolved { episode: None })),
        phase matches Phase::Matching { .. } ==> step(phase, event).0 == Phase::Finished,
{
}


/// Why the catalog's answer to a match by content hash names no episode.
#[derive(Clone, Copy, Debug, PartialEq, Eq, Structural)]
pub enum MatchError {
    /// The catalog says that nothing matches.
    NotMatched,
    /// The answer holds no episode, or more than one.
    Ambiguous,
}

/// The episode that the catalog's answer names: the only one it holds,
/// where it says that there is a match.
pub open spec fn matched_episode(is_matched: bool, matches: Seq<usize>) -> Result<
    usize,
    MatchError,
> {
    if !is_matched {
        Err(MatchError::NotMatched)
    } else if matches.len() == 1 {
        Ok(matches[0])
    } else {
        Err(MatchError::Ambiguous)
    }
}

/// Reads the episode off the catalog's answer to a match by content hash.
pub fn episode_of_match(is_matched: bool, matches: &Vec<usize>) -> (episode: Result<
    usize,
    MatchError,
>)
    ensures
        episode == matched_episode(is_matched, matches@),
{
    if !is_matched {
        Err(MatchError::NotMatched)
    } else if matches.len() == 1 {
        Ok(matches[0])
    } else {
        Err(MatchError::Ambiguous)
    }
}

} // verus!
