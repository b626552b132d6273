//! What the editor knows of the update service: the state it shows, when an
//! update may be applied, and which file of a release is the one to fetch.

use crate::scan::{has_pattern, occurs_at};
use vstd::prelude::*;
use vstd::string::StrSliceExecFns;
use vstd::utf8::encode_utf8;

verus! {

/// A release that the update service found.
#[derive(Clone, Debug)]
pub struct LatestVersion {
    /// The version of the release, as the release names it.
    pub ver: String,
    /// Where the release is fetched from.
    pub url: String,
}

/// Where the update service stands.
#[derive(Clone, Debug)]
pub enum UpdateServiceState {
    /// It is looking for a release.
    Checking,
    /// It found none.
    Unavailable,
    /// It found this release.
    UpdateAvailable(LatestVersion),
    /// It is fetching the release.
    Downloading,
    /// The release is fetched and can be applied.
    Downloaded,
}

impl UpdateServiceState {
    /// Whether the update can be applied: only once it is fetched.
    pub fn can_apply(&self) -> (ok: bool)
        ensures
            ok == (*self is Downloaded),
    {
        match self {
            UpdateServiceState::Downloaded => true,
            _ => false,
        }
    }
}

/// A file of a release.
#[derive(Clone, Debug)]
pub struct Asset {
    /// Its name, if the release gives one.
    pub name: Option<String>,
    /// Where it is fetched from, if the release says.
    pub url: Option<String>,
}

/// The ending that marks an executable for platforms other than Linux:
/// `.exe`.
pub open spec fn executable_suffix() -> Seq<u8> {
    seq![0x2e, 0x65, 0x78, 0x65]
}

/// Whether a name ends in `.exe`.
pub open spec fn names_executable(name: Seq<u8>) -> bool {
    occurs_at(name, executable_suffix(), name.len() - 4)
}

/// Whether an asset is one for the platform: on Linux one whose name does
/// not end in `.exe`, on any other platform one whose name does. An asset
/// without a name counts as one with an empty name.
pub open spec fn suits(asset: Asset, linux: bool) -> bool {
    let name = match asset.name {
        Some(n) => encode_utf8(n@),
        None => Seq::empty(),
    };
    names_executable(name) != linux
}

/// Decides whether an asset is one for the platform.
pub fn suits_platform(asset: &Asset, linux: bool) -> (ok: bool)
    ensures
        ok == suits(*asset, linux),
{
    let suffix: [u8; 4] = [0x2e, 0x65, 0x78, 0x65];
    assert(suffix@ =~= executable_suffix());
    let executable = match &asset.name {
        Some(name) => {
            let bytes = name.as_str().as_bytes();
            bytes.len() >= 4 && has_pattern(bytes, suffix.as_slice(), bytes.len() - 4)
        },
        None => false,
    };
    executable != linux
}

/// The position of the first asset at or after `from` that suits the
/// platform.
pub open spec fn first_suiting(assets: Seq<Asset>, linux: bool, from: int) -> Option<int>
    decreases assets.len() - from,
{
    if from < 0 || from >= assets.len() {
        None
    } else if suits(assets[from], linux) {
        Some(from)
    } else {
        first_suiting(assets, linux, from + 1)
    }
}

/// The first asset of a release that suits the platform.
pub fn select_asset(assets: &Vec<Asset>, linux: bool) -> (found: Option<usize>)
    ensures
        match found {
            Some(i) => first_suiting(assets@, linux, 0) == Some(i as int) && i < assets@.len(),
            None => first_suiting(assets@, linux, 0) is None,
        },
{
    let mut i: usize = 0;
    while i < assets.len()
        invariant
            i <= assets.len(),
            first_suiting(assets@, linux, 0) == first_suiting(assets@, linux, i as int),
        decreases assets.len() - i,
    {
        if suits_platform(&assets[i], linux) {
            return Some(i);
        }
        i += 1;
    }
    None
}

/// Where to fetch the release from: the address of the first asset that
/// suits the platform, if there is such an asset and it has one.
pub fn download_url(assets: &Vec<Asset>, linux: bool) -> (url: Option<String>)
    ensures
        match first_suiting(assets@, linux, 0) {
            Some(i) => match assets@[i].url {
                Some(address) => url matches Some(u) && u@ == address@,
                None => url is None,
            },
            None => url is None,
        },
{
    match select_asset(assets, linux) {
        Some(i) => match &assets[i].url {
            Some(address) => Some(address.clone()),
            None => None,
        },
        None => None,
    }
}

/// Whether semver reads the text as a version.
pub uninterp spec fn semver_valid(text: Seq<char>) -> bool;

/// Whether semver puts the version that `left` writes above the one that
/// `right` writes; `None` where one of the two writes no version.
pub uninterp spec fn semver_exceeds(left: Seq<char>, right: Seq<char>) -> Option<bool>;

/// Whether a text is a version.
///
/// Calls `semver::Version::parse` and says whether it succeeded.
#[verifier::external_body]
fn semver_accepts(text: &str) -> (ok: bool)
    ensures
        ok == semver_valid(text@),
{
    semver::Version::parse(text).is_ok()
}

/// Compares two versions given as text.
///
/// Calls `semver::Version::parse` on each text and compares the two versions
/// by the order that semver gives them; there is no answer where one of the
/// texts is no version.
#[verifier::external_body]
fn semver_compare(left: &str, right: &str) -> (above: Option<bool>)
    ensures
        above == semver_exceeds(left@, right@),
{
    let left = semver::Version::parse(left).ok()?;
    let right = semver::Version::parse(right).ok()?;
    Some(left > right)
}

/// The version assumed where none can be read.
pub open spec fn default_version() -> Seq<char> {
    "1.0.0"@
}

/// A text without its first character.
pub open spec fn without_first(text: Seq<char>) -> Seq<char> {
    text.subrange(1, text.len() as int)
}

/// What a comparison says of a release: it is newer only where the
/// comparison could be made and put it above.
pub open spec fn says_newer(compared: Option<bool>) -> bool {
    compared == Some(true)
}

/// Reads a comparison: whether it says that the release is newer.
pub fn is_newer(compared: Option<bool>) -> (newer: bool)
    ensures
        newer == says_newer(compared),
{
    match compared {
        Some(above) => above,
        None => false,
    }
}

/// The version to go by, given what was read: the candidate where it is a
/// version, else the default.
pub fn version_or_default(candidate: &str, valid: bool) -> (version: String)
    ensures
        version@ == (if valid {
            candidate@
        } else {
            default_version()
        }),
{
    if valid {
        candidate.to_owned()
    } else {
        "1.0.0".to_owned()
    }
}

/// A text without its first character; the empty text stays empty.
pub fn strip_first(text: &str) -> (rest: &str)
    ensures
        rest@ == (if text@.len() > 0 {
            without_first(text@)
        } else {
            text@
        }),
{
    let n: usize = text.unicode_len();
    if n == 0 {
        text
    } else {
        text.substring_char(1, n)
    }
}

/// The version of the running program.
///
/// `build_version` is the tag the program was built from, if it was built
/// from one: a `v` and the version. `package_version` is the version of the
/// package. Where the one to go by is no version, `1.0.0` is assumed.
pub fn current_version(build_version: Option<&str>, package_version: &str) -> (version: String)
    ensures
        version@ == ({
            let candidate = match build_version {
                Some(tag) => if tag@.len() > 0 {
                    without_first(tag@)
                } else {
                    tag@
                },
                None => package_version@,
            };
            if semver_valid(candidate) {
                candidate
            } else {
                default_version()
            }
        }),
{
    let candidate: &str = match build_version {
        Some(tag) => strip_first(tag),
        None => package_version,
    };
    version_or_default(candidate, semver_accepts(candidate))
}

impl LatestVersion {
    /// Whether the release is newer than the running program, whose version
    /// is `current`.
    pub fn newer_than_current(&self, current: &str) -> (newer: bool)
        ensures
            newer == says_newer(semver_exceeds(self.ver@, current@)),
    {
        is_newer(semver_compare(self.ver.as_str(), current))
    }
}

/// The release to offer, given what a release notice holds: its version, if
/// its tag is a `v` and a version, and the address of the first asset that
/// suits the platform, if there is one with an address.
pub fn latest_version(tag_name: Option<&str>, assets: &Vec<Asset>, linux: bool) -> (found: Option<
    LatestVersion,
>)
    ensures
        match found {
            Some(release) => {
                &&& tag_name matches Some(tag)
                &&& tag@.len() > 0
                &&& semver_valid(without_first(tag@))
                &&& release.ver@ == without_first(tag@)
                &&& first_suiting(assets@, linux, 0) matches Some(i)
                &&& assets@[i].url matches Some(address)
                &&& release.url@ == address@
            },
            None => {
                ||| tag_name is None
                ||| tag_name->Some_0@.len() == 0
                ||| !semver_valid(without_first(tag_name->Some_0@))
                ||| first_suiting(assets@, linux, 0) is None
                ||| assets@[first_suiting(assets@, linux, 0)->Some_0].url is None
            },
        },
{
    let tag: &str = match tag_name {
        Some(tag) => tag,
        None => {
            return None;
        },
    };
    if tag.unicode_len() == 0 {
        return None;
    }
    let version: &str = strip_first(tag);
    if !semver_accepts(version) {
        return None;
    }
    match download_url(assets, linux) {
        Some(url) => Some(LatestVersion { ver: version.to_owned(), url }),
        None => None,
    }
}

/// What the worker of the update service reports.
#[derive(Clone, Debug)]
pub enum UpdateEvent {
    /// The look for a release has ended, with the release found, if any.
    Checked(Option<LatestVersion>),
    /// The release found has been shown and the download can begin.
    Begun,
    /// The release has been fetched.
    Fetched,
}

/// What the worker is to do next.
#[derive(Clone, Debug)]
pub enum UpdateAction {
    /// Nothing: the worker is done.
    Idle,
    /// Show the state and report `Begun`.
    Begin,
    /// Fetch the release from this address and report `Fetched`.
    Fetch(String),
}

/// The release that a step is about: the one the event brings, or, where the
/// download is to begin, the one the state shows.
pub open spec fn release_of(state: UpdateServiceState, event: UpdateEvent) -> Option<
    LatestVersion,
> {
    match (state, event) {
        (_, UpdateEvent::Checked(Some(found))) => Some(found),
        (UpdateServiceState::UpdateAvailable(found), UpdateEvent::Begun) => Some(found),
        _ => None,
    }
}

/// The state after an event, and what it asks of the worker. `compared` is
/// what comparing the release of the step with the running program gave.
///
/// A look that found nothing ends in `Unavailable`. A look that found a
/// release shows it, whichever it is, and asks to begin where it is newer
/// than the running program. Beginning starts the download, of a newer
/// release only. The end of the download makes the update ready to apply.
/// Any other event leaves the state as it is.
pub open spec fn advanced(
    state: UpdateServiceState,
    event: UpdateEvent,
    compared: Option<bool>,
) -> (UpdateServiceState, UpdateAction) {
    match (state, event) {
        (UpdateServiceState::Checking, UpdateEvent::Checked(None)) => (
            UpdateServiceState::Unavailable,
            UpdateAction::Idle,
        ),
        (UpdateServiceState::Checking, UpdateEvent::Checked(Some(found))) => (
            UpdateServiceState::UpdateAvailable(found),
            if says_newer(compared) {
                UpdateAction::Begin
            } else {
                UpdateAction::Idle
            },
        ),
        (UpdateServiceState::UpdateAvailable(found), UpdateEvent::Begun) => if says_newer(
            compared,
        ) {
            (UpdateServiceState::Downloading, UpdateAction::Fetch(found.url))
        } else {
            (UpdateServiceState::UpdateAvailable(found), UpdateAction::Idle)
        },
        (UpdateServiceState::Downloading, UpdateEvent::Fetched) => (
            UpdateServiceState::Downloaded,
            UpdateAction::Idle,
        ),
        (state, _) => (state, UpdateAction::Idle),
    }
}

/// The order of the states: a release found is shown before anything else
/// is done with it; a newer one is then downloaded and is ready once it is
/// fetched; one that is not newer is shown and that is all; a look that
/// found nothing ends unavailable.
pub proof fn lemma_update_order(found: LatestVersion, compared: Option<bool>)
    ensures
        advanced(UpdateServiceState::Checking, UpdateEvent::Checked(None), compared) == (
            UpdateServiceState::Unavailable,
            UpdateAction::Idle,
        ),
        advanced(UpdateServiceState::Checking, UpdateEvent::Checked(Some(found)), compared).0
            == UpdateServiceState::UpdateAvailable(found),
        says_newer(compared) ==> {
            &&& advanced(
                UpdateServiceState::Checking,
                UpdateEvent::Checked(Some(found)),
                compared,
            ).1 == UpdateAction::Begin
            &&& advanced(UpdateServiceState::UpdateAvailable(found), UpdateEvent::Begun, compared)
                == (UpdateServiceState::Downloading, UpdateAction::Fetch(found.url))
            &&& advanced(UpdateServiceState::Downloading, UpdateEvent::Fetched, compared) == (
                UpdateServiceState::Downloaded,
                UpdateAction::Idle,
            )
        },
        !says_newer(compared) ==> {
            &&& advanced(
                UpdateServiceState::Checking,
                UpdateEvent::Checked(Some(found)),
                compared,
            ).1 == UpdateAction::Idle
            &&& advanced(UpdateServiceState::UpdateAvailable(found), UpdateEvent::Begun, compared)
                == (UpdateServiceState::UpdateAvailable(found), UpdateAction::Idle)
        },
{
}

/// No step skips a state: the download begins only from a release shown
/// that is newer than the running program, and the update becomes ready only
/// from a download, on its end.
pub proof fn lemma_update_steps(
    state: UpdateServiceState,
    event: UpdateEvent,
    compared: Option<bool>,
)
    ensures
        advanced(state, event, compared).0 is Downloading && !(state is Downloading) ==> state
            is UpdateAvailable && event is Begun && says_newer(compared),
        advanced(state, event, compared).0 is Downloaded && !(state is Downloaded) ==> state
            is Downloading && event is Fetched,
        advanced(state, event, compared).0 is UpdateAvailable && !(state is UpdateAvailable)
            ==> state is Checking && event is Checked,
        advanced(state, event, compared).1 is Fetch ==> advanced(state, event, compared).0
            is Downloading,
{
}

/// Moves the update service on by one event. `compared` is what comparing
/// the release of the step, if it has one, with the running program gave.
pub fn advance_with(state: UpdateServiceState, event: UpdateEvent, compared: Option<bool>) -> (next:
    (UpdateServiceState, UpdateAction))
    ensures
        next == advanced(state, event, compared),
{
    match (state, event) {
        (UpdateServiceState::Checking, UpdateEvent::Checked(None)) => (
            UpdateServiceState::Unavailable,
            UpdateAction::Idle,
        ),
        (UpdateServiceState::Checking, UpdateEvent::Checked(Some(found))) => {
            let action = if is_newer(compared) {
                UpdateAction::Begin
            } else {
                UpdateAction::Idle
            };
            (UpdateServiceState::UpdateAvailable(found), action)
        },
        (UpdateServiceState::UpdateAvailable(found), UpdateEvent::Begun) => {
            if is_newer(compared) {
                (UpdateServiceState::Downloading, UpdateAction::Fetch(found.url))
            } else {
                (UpdateServiceState::UpdateAvailable(found), UpdateAction::Idle)
            }
        },
        (UpdateServiceState::Downloading, UpdateEvent::Fetched) => (
            UpdateServiceState::Downloaded,
            UpdateAction::Idle,
        ),
        (state, _) => (state, UpdateAction::Idle),
    }
}

/// Moves the update service on by one event, for a running program whose
/// version is `current`.
pub fn advance(state: UpdateServiceState, event: UpdateEvent, current: &str) -> (next: (
    UpdateServiceState,
    UpdateAction,
))
    ensures
        next == advanced(
            state,
            event,
            match release_of(state, event) {
                Some(found) => semver_exceeds(found.ver@, current@),
                None => None,
            },
        ),
{
    let compared = match (&state, &event) {
        (_, UpdateEvent::Checked(Some(found))) => semver_compare(found.ver.as_str(), current),
        (UpdateServiceState::UpdateAvailable(found), UpdateEvent::Begun) => semver_compare(
            found.ver.as_str(),
            current,
        ),
        _ => None,
    };
    advance_with(state, event, compared)
}

} // verus!
