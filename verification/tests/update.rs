use sunrise::update::{
    advance, advance_with, current_version, download_url, is_newer, latest_version, select_asset, strip_first,
    suits_platform, version_or_default, Asset, LatestVersion, UpdateAction, UpdateEvent,
    UpdateServiceState,
};

fn asset(name: Option<&str>, url: Option<&str>) -> Asset {
    Asset { name: name.map(|s| s.to_string()), url: url.map(|s| s.to_string()) }
}

#[test]
fn an_update_is_applied_only_once_fetched() {
    let found = LatestVersion { ver: "1.2.3".to_string(), url: "https://x/y".to_string() };
    assert!(!UpdateServiceState::Checking.can_apply());
    assert!(!UpdateServiceState::Unavailable.can_apply());
    assert!(!UpdateServiceState::UpdateAvailable(found).can_apply());
    assert!(!UpdateServiceState::Downloading.can_apply());
    assert!(UpdateServiceState::Downloaded.can_apply());
}

#[test]
fn executables_are_for_platforms_other_than_linux() {
    assert!(suits_platform(&asset(Some("sunrise.exe"), None), false));
    assert!(!suits_platform(&asset(Some("sunrise.exe"), None), true));
    assert!(suits_platform(&asset(Some("sunrise"), None), true));
    assert!(!suits_platform(&asset(Some("sunrise"), None), false));
    assert!(suits_platform(&asset(Some(".exe"), None), false));
    assert!(suits_platform(&asset(Some("exe"), None), true));
    assert!(suits_platform(&asset(Some("a.EXE"), None), true));
    assert!(suits_platform(&asset(Some("a.exe "), None), true));
    assert!(suits_platform(&asset(None, None), true));
    assert!(!suits_platform(&asset(None, None), false));
    assert!(suits_platform(&asset(Some(""), None), true));
}

#[test]
fn the_first_suitable_asset_is_selected() {
    let assets = vec![
        asset(Some("a.exe"), Some("u0")),
        asset(Some("b"), Some("u1")),
        asset(Some("c.exe"), Some("u2")),
        asset(Some("d"), Some("u3")),
    ];
    assert_eq!(select_asset(&assets, false), Some(0));
    assert_eq!(select_asset(&assets, true), Some(1));
    assert_eq!(download_url(&assets, false), Some("u0".to_string()));
    assert_eq!(download_url(&assets, true), Some("u1".to_string()));
    assert_eq!(select_asset(&Vec::new(), true), None);
    assert_eq!(download_url(&Vec::new(), false), None);
    let only_executable = vec![asset(Some("a.exe"), Some("u0"))];
    assert_eq!(select_asset(&only_executable, true), None);
    assert_eq!(download_url(&only_executable, true), None);
}

#[test]
fn a_selected_asset_without_address_gives_none() {
    let assets = vec![asset(Some("a"), None), asset(Some("b"), Some("u1"))];
    assert_eq!(select_asset(&assets, true), Some(0));
    assert_eq!(download_url(&assets, true), None);
}

fn release(ver: &str) -> LatestVersion {
    LatestVersion { ver: ver.to_string(), url: "u".to_string() }
}

#[test]
fn a_release_is_newer_by_the_order_of_versions() {
    assert!(release("1.2.4").newer_than_current("1.2.3"));
    assert!(release("1.10.0").newer_than_current("1.9.9"));
    assert!(release("2.0.0").newer_than_current("1.99.99"));
    assert!(!release("1.2.3").newer_than_current("1.2.3"));
    assert!(!release("1.2.2").newer_than_current("1.2.3"));
    assert!(release("1.0.0").newer_than_current("1.0.0-rc.1"));
    assert!(!release("1.0.0-alpha").newer_than_current("1.0.0"));
    assert!(release("1.0.0-beta.11").newer_than_current("1.0.0-beta.2"));
}

#[test]
fn what_is_no_version_is_never_newer() {
    assert!(!release("").newer_than_current("1.0.0"));
    assert!(!release("2").newer_than_current("1.0.0"));
    assert!(!release("v2.0.0").newer_than_current("1.0.0"));
    assert!(!release("2.0.0").newer_than_current("one"));
    assert!(!release("1.0.01").newer_than_current("1.0.0"));
}

#[test]
fn a_comparison_is_read() {
    assert!(is_newer(Some(true)));
    assert!(!is_newer(Some(false)));
    assert!(!is_newer(None));
}

#[test]
fn the_first_character_is_stripped() {
    assert_eq!(strip_first("v1.2.3"), "1.2.3");
    assert_eq!(strip_first("1"), "");
    assert_eq!(strip_first(""), "");
    assert_eq!(strip_first("é1"), "1");
}

#[test]
fn the_running_version_comes_from_the_build_tag_or_the_package() {
    assert_eq!(current_version(Some("v1.4.0"), "0.1.0"), "1.4.0");
    assert_eq!(current_version(None, "0.1.0"), "0.1.0");
    assert_eq!(current_version(Some("1.4.0"), "0.1.0"), "1.0.0");
    assert_eq!(current_version(Some(""), "0.1.0"), "1.0.0");
    assert_eq!(current_version(Some("vnext"), "0.1.0"), "1.0.0");
    assert_eq!(current_version(None, ""), "1.0.0");
    assert_eq!(current_version(None, "1.2"), "1.0.0");
    assert_eq!(current_version(None, "3.2.1-rc.1+build.5"), "3.2.1-rc.1+build.5");
}

#[test]
fn a_candidate_that_is_no_version_gives_the_default() {
    assert_eq!(version_or_default("3.1.4", true), "3.1.4");
    assert_eq!(version_or_default("3.1.4", false), "1.0.0");
}

#[test]
fn a_release_notice_gives_a_release() {
    let assets = vec![asset(Some("sunrise.exe"), Some("win")), asset(Some("sunrise"), Some("nix"))];
    let found = latest_version(Some("v1.2.3"), &assets, true).unwrap();
    assert_eq!(found.ver, "1.2.3");
    assert_eq!(found.url, "nix");
    let found = latest_version(Some("v1.2.3"), &assets, false).unwrap();
    assert_eq!(found.url, "win");
}

#[test]
fn a_release_notice_that_lacks_something_gives_none() {
    let assets = vec![asset(Some("sunrise"), Some("nix"))];
    assert!(latest_version(None, &assets, true).is_none());
    assert!(latest_version(Some(""), &assets, true).is_none());
    assert!(latest_version(Some("1.2.3"), &assets, true).is_none());
    assert!(latest_version(Some("vv1.2.3"), &assets, true).is_none());
    assert!(latest_version(Some("v1.2"), &assets, true).is_none());
    assert!(latest_version(Some("v1.2.3"), &assets, false).is_none());
    assert!(latest_version(Some("v1.2.3"), &Vec::new(), true).is_none());
    assert!(latest_version(Some("v1.2.3"), &vec![asset(Some("sunrise"), None)], true).is_none());
}

fn shown(state: &UpdateServiceState) -> String {
    format!("{:?}", state)
}

fn asked(action: &UpdateAction) -> String {
    format!("{:?}", action)
}

#[test]
fn a_look_that_finds_nothing_ends_unavailable() {
    let (state, action) = advance(UpdateServiceState::Checking, UpdateEvent::Checked(None), "1.0.0");
    assert_eq!(shown(&state), shown(&UpdateServiceState::Unavailable));
    assert_eq!(asked(&action), asked(&UpdateAction::Idle));
}

/// Runs the service as its worker does and records the states it shows.
fn states_shown(latest: Option<LatestVersion>, current: &str) -> Vec<String> {
    let mut state = UpdateServiceState::Checking;
    let mut seen = vec![shown(&state)];
    let mut event = UpdateEvent::Checked(latest);
    loop {
        let (next, action) = advance(state, event, current);
        state = next;
        seen.push(shown(&state));
        match action {
            UpdateAction::Idle => return seen,
            UpdateAction::Begin => event = UpdateEvent::Begun,
            UpdateAction::Fetch(url) => {
                assert_eq!(url, "there");
                event = UpdateEvent::Fetched;
            }
        }
    }
}

#[test]
fn a_newer_release_is_shown_then_fetched() {
    let found = LatestVersion { ver: "1.0.1".to_string(), url: "there".to_string() };
    assert_eq!(
        states_shown(Some(found.clone()), "1.0.0"),
        vec![
            shown(&UpdateServiceState::Checking),
            shown(&UpdateServiceState::UpdateAvailable(found)),
            shown(&UpdateServiceState::Downloading),
            shown(&UpdateServiceState::Downloaded),
        ]
    );
}

#[test]
fn each_step_of_a_newer_release() {
    let found = LatestVersion { ver: "1.0.1".to_string(), url: "there".to_string() };
    let (state, action) =
        advance(UpdateServiceState::Checking, UpdateEvent::Checked(Some(found.clone())), "1.0.0");
    assert_eq!(shown(&state), shown(&UpdateServiceState::UpdateAvailable(found)));
    assert_eq!(asked(&action), asked(&UpdateAction::Begin));
    assert!(!state.can_apply());
    let (state, action) = advance(state, UpdateEvent::Begun, "1.0.0");
    assert_eq!(shown(&state), shown(&UpdateServiceState::Downloading));
    assert_eq!(asked(&action), asked(&UpdateAction::Fetch("there".to_string())));
    assert!(!state.can_apply());
    let (state, action) = advance(state, UpdateEvent::Fetched, "1.0.0");
    assert_eq!(shown(&state), shown(&UpdateServiceState::Downloaded));
    assert_eq!(asked(&action), asked(&UpdateAction::Idle));
    assert!(state.can_apply());
}

#[test]
fn a_release_that_is_not_newer_is_only_shown() {
    for ver in ["1.0.0", "0.9.0", "not a version"] {
        let found = LatestVersion { ver: ver.to_string(), url: "there".to_string() };
        assert_eq!(
            states_shown(Some(found.clone()), "1.0.0"),
            vec![
                shown(&UpdateServiceState::Checking),
                shown(&UpdateServiceState::UpdateAvailable(found.clone())),
            ]
        );
        let (state, action) =
            advance(UpdateServiceState::UpdateAvailable(found.clone()), UpdateEvent::Begun, "1.0.0");
        assert_eq!(shown(&state), shown(&UpdateServiceState::UpdateAvailable(found)));
        assert_eq!(asked(&action), asked(&UpdateAction::Idle));
    }
}

#[test]
fn nothing_found_is_shown_as_unavailable() {
    assert_eq!(
        states_shown(None, "1.0.0"),
        vec![shown(&UpdateServiceState::Checking), shown(&UpdateServiceState::Unavailable)]
    );
}

#[test]
fn events_out_of_turn_change_nothing() {
    let found = LatestVersion { ver: "9.0.0".to_string(), url: "there".to_string() };
    let states = [
        UpdateServiceState::Unavailable,
        UpdateServiceState::UpdateAvailable(found.clone()),
        UpdateServiceState::Downloading,
        UpdateServiceState::Downloaded,
    ];
    for state in states {
        let (next, action) =
            advance(state.clone(), UpdateEvent::Checked(Some(found.clone())), "1.0.0");
        assert_eq!(shown(&next), shown(&state));
        assert_eq!(asked(&action), asked(&UpdateAction::Idle));
    }
    let states = [
        UpdateServiceState::Checking,
        UpdateServiceState::Unavailable,
        UpdateServiceState::UpdateAvailable(found.clone()),
        UpdateServiceState::Downloaded,
    ];
    for state in states {
        let (next, action) = advance(state.clone(), UpdateEvent::Fetched, "1.0.0");
        assert_eq!(shown(&next), shown(&state));
        assert_eq!(asked(&action), asked(&UpdateAction::Idle));
    }
    let states = [
        UpdateServiceState::Checking,
        UpdateServiceState::Unavailable,
        UpdateServiceState::Downloading,
        UpdateServiceState::Downloaded,
    ];
    for state in states {
        let (next, action) = advance(state.clone(), UpdateEvent::Begun, "1.0.0");
        assert_eq!(shown(&next), shown(&state));
        assert_eq!(asked(&action), asked(&UpdateAction::Idle));
    }
}

#[test]
fn the_comparison_decides_the_download() {
    let found = LatestVersion { ver: "x".to_string(), url: "there".to_string() };
    let available = UpdateServiceState::UpdateAvailable(found.clone());
    for (compared, action) in [
        (Some(true), UpdateAction::Begin),
        (Some(false), UpdateAction::Idle),
        (None, UpdateAction::Idle),
    ] {
        let next = advance_with(
            UpdateServiceState::Checking,
            UpdateEvent::Checked(Some(found.clone())),
            compared,
        );
        assert_eq!(shown(&next.0), shown(&available));
        assert_eq!(asked(&next.1), asked(&action));
    }
    let next = advance_with(available.clone(), UpdateEvent::Begun, Some(true));
    assert_eq!(shown(&next.0), shown(&UpdateServiceState::Downloading));
    assert_eq!(asked(&next.1), asked(&UpdateAction::Fetch("there".to_string())));
    for compared in [Some(false), None] {
        let next = advance_with(available.clone(), UpdateEvent::Begun, compared);
        assert_eq!(shown(&next.0), shown(&available));
        assert_eq!(asked(&next.1), asked(&UpdateAction::Idle));
    }
}
