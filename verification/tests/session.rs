use danmaku::session::{advance, episode_of_match, Action, Event, Failure, MatchError, Phase};

#[test]
fn local_file_is_matched_by_hash() {
    let (phase, action) = advance(Phase::Start, Event::Opened { http: false });
    assert_eq!(phase, Phase::Matching { remember: false });
    assert_eq!(action, Action::MatchLocalFile);
    assert_eq!(
        advance(phase, Event::Matched { episode: Some(42) }),
        (Phase::Finished, Action::Play { episode: 42 })
    );
    assert_eq!(
        advance(phase, Event::Matched { episode: None }),
        (Phase::Finished, Action::Abort { failure: Failure::MatchFailed })
    );
}

#[test]
fn stream_is_looked_up_first() {
    assert_eq!(
        advance(Phase::Start, Event::Opened { http: true }),
        (Phase::Probing, Action::FetchEpisodeInfo)
    );
}

#[test]
fn episode_written_down_is_used_without_search() {
    assert_eq!(
        advance(Phase::Probing, Event::Described { available: true, cached: Some(1010005) }),
        (Phase::Finished, Action::Play { episode: 1010005 })
    );
    assert_eq!(
        advance(Phase::Probing, Event::Described { available: true, cached: Some(0) }),
        (Phase::Finished, Action::Abort { failure: Failure::NoMatchingResult })
    );
}

#[test]
fn unknown_item_is_matched_by_hash() {
    for cached in [None, Some(5)] {
        assert_eq!(
            advance(Phase::Probing, Event::Described { available: false, cached }),
            (Phase::Matching { remember: false }, Action::MatchStream)
        );
    }
}

#[test]
fn known_item_is_searched_by_metadata_then_by_hash() {
    let (phase, action) =
        advance(Phase::Probing, Event::Described { available: true, cached: None });
    assert_eq!((phase, action), (Phase::Resolving, Action::ResolveByInfo));
    assert_eq!(
        advance(phase, Event::Resolved { episode: Some(7) }),
        (Phase::Finished, Action::RememberAndPlay { episode: 7 })
    );
    assert_eq!(
        advance(phase, Event::Resolved { episode: Some(0) }),
        (Phase::Finished, Action::RememberAndAbort { episode: 0 })
    );
    let (phase, action) = advance(phase, Event::Resolved { episode: None });
    assert_eq!((phase, action), (Phase::Matching { remember: true }, Action::MatchStream));
    assert_eq!(
        advance(phase, Event::Matched { episode: Some(9) }),
        (Phase::Finished, Action::RememberAndPlay { episode: 9 })
    );
    assert_eq!(
        advance(phase, Event::Matched { episode: Some(0) }),
        (Phase::Finished, Action::RememberAndAbort { episode: 0 })
    );
    assert_eq!(
        advance(phase, Event::Matched { episode: None }),
        (Phase::Finished, Action::Abort { failure: Failure::MatchFailed })
    );
}

#[test]
fn library_that_cannot_be_asked_ends_the_search() {
    assert_eq!(
        advance(Phase::Probing, Event::Unreachable),
        (Phase::Finished, Action::Abort { failure: Failure::MetadataUnavailable })
    );
}

#[test]
fn events_out_of_turn_end_the_search() {
    let out = (Phase::Finished, Action::Abort { failure: Failure::OutOfTurn });
    assert_eq!(advance(Phase::Start, Event::Unreachable), out);
    assert_eq!(advance(Phase::Start, Event::Matched { episode: Some(1) }), out);
    assert_eq!(advance(Phase::Probing, Event::Opened { http: true }), out);
    assert_eq!(advance(Phase::Resolving, Event::Matched { episode: Some(1) }), out);
    assert_eq!(advance(Phase::Matching { remember: true }, Event::Resolved { episode: None }), out);
    assert_eq!(advance(Phase::Finished, Event::Opened { http: false }), out);
}

#[test]
fn answer_to_a_match_by_hash() {
    assert_eq!(episode_of_match(true, &vec![1010005]), Ok(1010005));
    assert_eq!(episode_of_match(false, &vec![1010005]), Err(MatchError::NotMatched));
    assert_eq!(episode_of_match(false, &vec![]), Err(MatchError::NotMatched));
    assert_eq!(episode_of_match(true, &vec![]), Err(MatchError::Ambiguous));
    assert_eq!(episode_of_match(true, &vec![1, 2]), Err(MatchError::Ambiguous));
}
