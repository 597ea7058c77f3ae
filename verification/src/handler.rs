//! The decisions of each command. The caller does the file-system work and
//! hands in what it observed; these functions say what follows from it.

use vstd::prelude::*;
use crate::error::LinkError;
use crate::manifest;
use crate::manifest::{EntryView, Manifest};
use crate::paths;
use crate::env::home_directory;
use crate::paths::{expand_tilde, normalize_path_with, stored_key_for, strip_path_prefix};
use crate::text;
use crate::text::replace_all_occurrences;

verus! {

/// Where an input path lies once made absolute: `absolute` as it is used to
/// write the path for the manifest, `canonical` with links resolved as far
/// as the file system allows.
#[derive(Debug)]
pub struct InputLocation {
    pub absolute: String,
    pub canonical: String,
}

/// The entry an input names, given how the input path is written for the
/// manifest (`display`) and its place inside the repository (`repo_relative`,
/// where it lies there): the input itself if it is a stored key; else the
/// first entry, in key order, whose system path is `display`; else its place
/// inside the repository, if that is a stored key.
pub open spec fn resolve_spec(
    s: Seq<EntryView>,
    input: Seq<char>,
    display: Seq<char>,
    repo_relative: Option<Seq<char>>,
) -> Option<Seq<char>> {
    if manifest::map_of(s).contains_key(input) {
        Some(input)
    } else if manifest::first_key_with_target(s, display) is Some {
        manifest::first_key_with_target(s, display)
    } else {
        match repo_relative {
            Some(rel) => if manifest::map_of(s).contains_key(rel) {
                Some(rel)
            } else {
                None
            },
            None => None,
        }
    }
}

/// The entry an input names, given `display` and where the input lies once
/// resolved (`canonical`), for the repository at `repo`.
pub open spec fn identify_spec(
    repo: Seq<char>,
    s: Seq<EntryView>,
    input: Seq<char>,
    display: Seq<char>,
    canonical: Seq<char>,
) -> Option<Seq<char>> {
    resolve_spec(s, input, display, paths::path_relative_to(canonical, repo))
}

/// What `identify_entry` may give back for `input`, whatever home directory
/// the environment has: the input itself when it is a stored key; else the
/// result of `identify_spec` for some home directory, or the refusals that
/// come before it.
pub open spec fn identify_outcome(
    repo: Seq<char>,
    s: Seq<EntryView>,
    input: Seq<char>,
    located: Option<InputLocation>,
    r: Result<Seq<char>, LinkError>,
) -> bool {
    if manifest::map_of(s).contains_key(input) {
        r == Ok::<Seq<char>, LinkError>(input)
    } else {
        match located {
            None => r == Err::<Seq<char>, LinkError>(LinkError::WorkingDirUnavailable),
            Some(loc) => match r {
                Ok(k) => exists|home: Seq<char>|
                    identify_spec(repo, s, input, #[trigger] paths::home_display(loc.absolute@, home), loc.canonical@)
                        == Some(k),
                Err(e) => e == LinkError::HomeUnavailable || (e matches LinkError::EntryNotFound { input: i }
                    && i@ == input && exists|home: Seq<char>|
                    identify_spec(repo, s, input, #[trigger] paths::home_display(loc.absolute@, home), loc.canonical@)
                        is None),
            },
        }
    }
}

/// What `first_key_with_target` finds is a stored key.
pub proof fn lemma_first_key_is_key(s: Seq<EntryView>, t: Seq<char>)
    ensures
        first_key_with_target_is_key(s, t),
    decreases s.len(),
{
    if s.len() > 0 && s[0].1 != t {
        lemma_first_key_is_key(s.drop_first(), t);
    }
}

/// Whatever `first_key_with_target(s, t)` finds, `lookup` finds too.
pub open spec fn first_key_with_target_is_key(s: Seq<EntryView>, t: Seq<char>) -> bool {
    manifest::first_key_with_target(s, t) matches Some(k) ==> manifest::lookup(s, k) is Some
}

/// Whatever `resolve_spec` names is a stored key.
pub proof fn lemma_resolved_is_key(
    s: Seq<EntryView>,
    input: Seq<char>,
    display: Seq<char>,
    repo_relative: Option<Seq<char>>,
)
    ensures
        resolve_spec(s, input, display, repo_relative) matches Some(k) ==> manifest::map_of(s).contains_key(k),
{
    lemma_first_key_is_key(s, display);
}

/// The entry that `input` names, given how the input path is written for the
/// manifest (`display`) and its place inside the repository, if it lies there.
pub fn resolve_entry(m: &Manifest, input: &str, display: &str, repo_relative: Option<String>) -> (r: Option<String>)
    requires
        m.wf(),
    ensures
        match r {
            Some(k) => resolve_spec(m.entries(), input@, display@, text::opt_view(repo_relative)) == Some(k@),
            None => resolve_spec(m.entries(), input@, display@, text::opt_view(repo_relative)) is None,
        },
{
    if m.contains_key(input) {
        return Some(input.to_owned());
    }
    match m.find_key_by_target(display) {
        Some(k) => {
            return Some(k);
        },
        None => {},
    }
    match repo_relative {
        Some(rel) => {
            if m.contains_key(rel.as_str()) {
                Some(rel)
            } else {
                None
            }
        },
        None => None,
    }
}

/// What `identify_entry` gives for `input` when the home-directory lookup
/// answers `home`: the input itself when it is a stored key; else, where the
/// input could be located, the entry `identify_spec` names with the input
/// written relative to that home, or a refusal.
pub open spec fn identify_with_home(
    repo: Seq<char>,
    s: Seq<EntryView>,
    input: Seq<char>,
    located: Option<InputLocation>,
    home: Option<Seq<char>>,
    r: Result<Seq<char>, LinkError>,
) -> bool {
    if manifest::map_of(s).contains_key(input) {
        r == Ok::<Seq<char>, LinkError>(input)
    } else {
        match located {
            None => r == Err::<Seq<char>, LinkError>(LinkError::WorkingDirUnavailable),
            Some(loc) => match home {
                None => r == Err::<Seq<char>, LinkError>(LinkError::HomeUnavailable),
                Some(h) => match identify_spec(repo, s, input, paths::home_display(loc.absolute@, h), loc.canonical@) {
                    Some(k) => r == Ok::<Seq<char>, LinkError>(k),
                    None => r matches Err(e) && e matches LinkError::EntryNotFound { input: i } && i@ == input,
                },
            },
        }
    }
}

/// A result with its key as plain characters.
pub open spec fn key_result(r: Result<String, LinkError>) -> Result<Seq<char>, LinkError> {
    match r {
        Ok(k) => Ok(k@),
        Err(e) => Err(e),
    }
}

/// The stored key that `input` names, with `home` the answer of the
/// home-directory lookup (see `identify_with_home`).
pub fn identify_entry_with(
    repo: &str,
    m: &Manifest,
    input: &str,
    located: &Option<InputLocation>,
    home: &Option<String>,
) -> (r: Result<String, LinkError>)
    requires
        m.wf(),
    ensures
        identify_with_home(repo@, m.entries(), input@, *located, text::opt_view(*home), key_result(r)),
        r matches Ok(k) ==> m.map().contains_key(k@),
{
    if m.contains_key(input) {
        return Ok(input.to_owned());
    }
    match located {
        None => Err(LinkError::WorkingDirUnavailable),
        Some(loc) => {
            let display = normalize_path_with(loc.absolute.as_str(), home)?;
            let repo_relative = strip_path_prefix(loc.canonical.as_str(), repo);
            let ghost rel = text::opt_view(repo_relative);
            let found = resolve_entry(m, input, display.as_str(), repo_relative);
            proof {
                lemma_resolved_is_key(m.entries(), input@, display@, rel);
            }
            match found {
                Some(k) => Ok(k),
                None => Err(LinkError::EntryNotFound { input: input.to_owned() }),
            }
        },
    }
}

/// The stored key that `input` names: a stored key, a system path, or a
/// path inside the repository. `located` is `None` where the working
/// directory, needed to make a relative input absolute, cannot be had. A
/// system path is written relative to the home directory the lookup reports.
pub fn identify_entry(repo: &str, m: &Manifest, input: &str, located: &Option<InputLocation>) -> (r: Result<String, LinkError>)
    requires
        m.wf(),
    ensures
        exists|home: Option<Seq<char>>|
            #[trigger] crate::env::is_home_lookup(home) && identify_with_home(
                repo@,
                m.entries(),
                input@,
                *located,
                home,
                key_result(r),
            ),
        identify_outcome(repo@, m.entries(), input@, *located, key_result(r)),
        r matches Ok(k) ==> m.map().contains_key(k@),
{
    let home = home_directory();
    let r = identify_entry_with(repo, m, input, located, &home);
    proof {
        lemma_exact_identify_is_outcome(repo@, m.entries(), input@, *located, text::opt_view(home), key_result(r));
    }
    r
}

/// An identification under one home is one of the outcomes `identify_outcome` allows.
pub proof fn lemma_exact_identify_is_outcome(
    repo: Seq<char>,
    s: Seq<EntryView>,
    input: Seq<char>,
    located: Option<InputLocation>,
    home: Option<Seq<char>>,
    r: Result<Seq<char>, LinkError>,
)
    requires
        identify_with_home(repo, s, input, located, home, r),
    ensures
        identify_outcome(repo, s, input, located, r),
{
}

/// An entry taken out of the manifest by `unlink` or `remove`: its stored
/// key, its system path as recorded, and that path on this machine.
pub struct Detached {
    pub stored_key: String,
    pub system_path: String,
    pub system_abs: String,
}

/// Takes out of the manifest the entry that `input` names (see
/// `identify_entry`); the manifest is left as it was when none is found.
/// The system path is expanded against the same home the lookup reports.
pub fn detach_entry(repo: &str, m: &mut Manifest, input: &str, located: &Option<InputLocation>) -> (r: Result<Detached, LinkError>)
    requires
        old(m).wf(),
    ensures
        final(m).wf(),
        final(m).command() == old(m).command(),
        exists|home: Option<Seq<char>>|
            #[trigger] crate::env::is_home_lookup(home) && identify_with_home(
                repo@,
                old(m).entries(),
                input@,
                *located,
                home,
                match r {
                    Ok(d) => Ok(d.stored_key@),
                    Err(e) => Err(e),
                },
            ) && (r matches Ok(d) ==> paths::tilde_expansion(d.system_path@, home, d.system_abs@)),
        identify_outcome(
            repo@,
            old(m).entries(),
            input@,
            *located,
            match r {
                Ok(d) => Ok(d.stored_key@),
                Err(e) => Err(e),
            },
        ),
        match r {
            Ok(d) => {
                &&& old(m).map().contains_key(d.stored_key@)
                &&& old(m).map()[d.stored_key@] == d.system_path@
                &&& final(m).map() == old(m).map().remove(d.stored_key@)
                &&& paths::tilde_outcome(d.system_path@, d.system_abs@)
            },
            Err(_) => final(m).entries() == old(m).entries(),
        },
{
    let home = home_directory();
    let ghost hv = text::opt_view(home);
    let found = identify_entry_with(repo, m, input, located, &home);
    proof {
        lemma_exact_identify_is_outcome(repo@, m.entries(), input@, *located, hv, key_result(found));
    }
    let key = match found {
        Ok(k) => k,
        Err(e) => {
            return Err(e);
        },
    };
    match m.remove(key.as_str()) {
        Some(system_path) => {
            let system_abs = expand_tilde(system_path.as_str(), &home);
            proof {
                paths::lemma_expansion_is_outcome(system_path@, hv, system_abs@);
            }
            Ok(Detached { stored_key: key, system_path, system_abs })
        },
        None => {
            assert(false);
            Err(LinkError::EntryNotFound { input: key })
        },
    }
}

/// The path that `link` takes in: as the manifest records it, and where it is.
pub struct LinkSource {
    pub system_path: String,
    pub system_abs: String,
}

/// What `link_source` gives for `absolute` when the home-directory lookup
/// answers `home`: the path written relative to that home, and that written
/// path expanded against the same home; a refusal where there is no home.
pub open spec fn link_source_with_home(
    absolute: Seq<char>,
    home: Option<Seq<char>>,
    r: Result<LinkSource, LinkError>,
) -> bool {
    match home {
        Some(h) => r matches Ok(src) && src.system_path@ == paths::home_display(absolute, h)
            && paths::tilde_expansion(src.system_path@, Some(h), src.system_abs@),
        None => r matches Err(e) && e == LinkError::HomeUnavailable,
    }
}

/// First step of `link`: writes the absolute path to link as the manifest
/// records it, and finds it again on this machine, both against the home
/// directory the lookup reports.
pub fn link_source(absolute: &str) -> (r: Result<LinkSource, LinkError>)
    ensures
        exists|home: Option<Seq<char>>|
            #[trigger] crate::env::is_home_lookup(home) && link_source_with_home(absolute@, home, r),
        match r {
            Ok(src) => {
                &&& exists|home: Seq<char>| src.system_path@ == #[trigger] paths::home_display(absolute@, home)
                &&& paths::tilde_outcome(src.system_path@, src.system_abs@)
            },
            Err(e) => e == LinkError::HomeUnavailable,
        },
{
    let home = home_directory();
    let ghost hv = text::opt_view(home);
    let system_path = normalize_path_with(absolute, &home)?;
    let system_abs = expand_tilde(system_path.as_str(), &home);
    proof {
        paths::lemma_expansion_is_outcome(system_path@, hv, system_abs@);
        let h = hv->0;
        assert(system_path@ == paths::home_display(absolute@, h));
    }
    Ok(LinkSource { system_path, system_abs })
}

/// Second step of `link`: the path must exist; the stored key is the one
/// asked for, or else the path's file name without a leading `.`.
pub fn link_key(source: &LinkSource, source_exists: bool, requested: Option<String>) -> (r: Result<String, LinkError>)
    ensures
        source_exists <==> r is Ok,
        r matches Ok(k) ==> k@ == paths::chosen_key(text::opt_view(requested), paths::path_file_name(source.system_abs@)),
        r matches Err(e) ==> e matches LinkError::PathDoesNotExist { system_path: p } && p@
            == source.system_path@,
{
    if !source_exists {
        return Err(LinkError::PathDoesNotExist { system_path: source.system_path.clone() });
    }
    Ok(stored_key_for(requested, source.system_abs.as_str()))
}

/// Third step of `link`: nothing may be stored under the key yet.
pub fn claim_slot(stored_key: &str, source: &LinkSource, slot_taken: bool) -> (r: Result<(), LinkError>)
    ensures
        !slot_taken <==> r is Ok,
        r matches Err(e) ==> e matches LinkError::EntryExists { stored_key: k, system_path: p } && k@
            == stored_key@ && p@ == source.system_path@,
{
    if slot_taken {
        Err(LinkError::EntryExists { stored_key: stored_key.to_owned(), system_path: source.system_path.clone() })
    } else {
        Ok(())
    }
}

/// Last step of `link`, once the path has moved into the repository: the
/// manifest records the key with the path as written for the manifest.
pub fn record_link(m: &mut Manifest, stored_key: String, source: &LinkSource)
    requires
        old(m).wf(),
    ensures
        final(m).wf(),
        final(m).command() == old(m).command(),
        final(m).map() == old(m).map().insert(stored_key@, source.system_path@),
{
    m.insert(stored_key, source.system_path.clone());
}

/// One entry as `deploy` visits it: its stored key, its system path as
/// recorded, and that path on this machine.
pub struct DeployTarget {
    pub stored_key: String,
    pub system_path: String,
    pub system_abs: String,
}

/// The entries that `deploy` visits, in key order.
pub fn deploy_targets(m: &Manifest) -> (v: Vec<DeployTarget>)
    ensures
        v@.len() == m.entries().len(),
        forall|i: int|
            0 <= i < v@.len() ==> {
                &&& (#[trigger] v@[i]).stored_key@ == m.entries()[i].0
                &&& v@[i].system_path@ == m.entries()[i].1
                &&& paths::tilde_outcome(v@[i].system_path@, v@[i].system_abs@)
            },
        exists|home: Option<Seq<char>>|
            #[trigger] crate::env::is_home_lookup(home) && forall|i: int|
                0 <= i < v@.len() ==> paths::tilde_expansion(
                    (#[trigger] v@[i]).system_path@,
                    home,
                    v@[i].system_abs@,
                ),
{
    let home = home_directory();
    let ghost hv = text::opt_view(home);
    let mut v: Vec<DeployTarget> = Vec::new();
    let mut i: usize = 0;
    while i < m.len()
        invariant
            i <= m.entries().len(),
            v@.len() == i,
            hv == text::opt_view(home),
            forall|j: int|
                0 <= j < i ==> {
                    &&& (#[trigger] v@[j]).stored_key@ == m.entries()[j].0
                    &&& v@[j].system_path@ == m.entries()[j].1
                    &&& paths::tilde_outcome(v@[j].system_path@, v@[j].system_abs@)
                    &&& paths::tilde_expansion(v@[j].system_path@, hv, v@[j].system_abs@)
                },
        decreases m.entries().len() - i,
    {
        let stored_key = m.key_at(i).clone();
        let system_path = m.target_at(i).clone();
        let system_abs = expand_tilde(system_path.as_str(), &home);
        proof {
            paths::lemma_expansion_is_outcome(system_path@, hv, system_abs@);
        }
        v.push(DeployTarget { stored_key, system_path, system_abs });
        i = i + 1;
    }
    assert(crate::env::is_home_lookup(hv));
    v
}

/// What `deploy` does with one entry.
#[derive(Debug, Clone, Copy, PartialEq, Eq, Structural)]
pub enum DeployAction {
    /// The system path already links to the stored entry.
    Skip,
    /// Something else stands at the system path, and overwriting was not asked for.
    Conflict,
    /// Something else stands at the system path: remove it, then link.
    Replace,
    /// Nothing stands at the system path: link.
    Create,
}

/// What `deploy` does with an entry, given whether the system path already
/// links to the stored entry, whether anything stands there, and `force`.
pub fn deploy_action(already_linked: bool, occupied: bool, force: bool) -> (a: DeployAction)
    ensures
        a == (if already_linked {
            DeployAction::Skip
        } else if occupied && !force {
            DeployAction::Conflict
        } else if occupied {
            DeployAction::Replace
        } else {
            DeployAction::Create
        }),
{
    if already_linked {
        DeployAction::Skip
    } else if occupied {
        if force {
            DeployAction::Replace
        } else {
            DeployAction::Conflict
        }
    } else {
        DeployAction::Create
    }
}

/// The placeholder in the open command that stands for the repository.
pub open spec fn path_placeholder() -> Seq<char> {
    seq!['{', 'p', 'a', 't', 'h', '}']
}

/// The command `open` runs: the manifest's open command with every
/// `{path}` replaced by the repository path; refused where none is set.
pub fn open_command(m: &Manifest, repo: &str) -> (r: Result<String, LinkError>)
    ensures
        match m.command() {
            Some(c) => r matches Ok(s) && s@ == text::replace_all(c, path_placeholder(), repo@),
            None => r matches Err(e) && e == LinkError::OpenCommandUnset,
        },
{
    match m.open_cmd() {
        Some(cmd) => {
            let placeholder = "{path}";
            proof {
                reveal_strlit("{path}");
                assert(placeholder@ =~= path_placeholder());
            }
            Ok(replace_all_occurrences(cmd.as_str(), placeholder, repo))
        },
        None => Err(LinkError::OpenCommandUnset),
    }
}

} // verus!
