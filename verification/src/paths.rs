//! How system paths are written in the manifest and found again on this
//! machine: home-relative paths start with `~/`, and use `/` throughout.

use vstd::prelude::*;
use crate::text;
use crate::text::{replace_all_occurrences, without_leading_dot};
use crate::env::home_directory;

verus! {

/// Names what `std::path::Path::strip_prefix` gives for `path` and `base`:
/// the rest of `path` after the components of `base`, or `None` where
/// `base` is not a component-wise prefix of `path`.
pub uninterp spec fn path_relative_to(path: Seq<char>, base: Seq<char>) -> Option<Seq<char>>;

/// Names what `std::path::Path::file_name` gives for `path`: its last
/// normal component, or `None` (for a root, or a path ending in `..`).
pub uninterp spec fn path_file_name(path: Seq<char>) -> Option<Seq<char>>;

/// Calls `std::path::Path::strip_prefix`. Claimed: the result is the named
/// `path_relative_to(path, base)`; the remainder of a path built from a
/// `&str` is valid text, so turning it back into a `String` loses nothing.
#[verifier::external_body]
pub(crate) fn strip_path_prefix(path: &str, base: &str) -> (r: Option<String>)
    ensures
        match r {
            Some(rel) => path_relative_to(path@, base@) == Some(rel@),
            None => path_relative_to(path@, base@) is None,
        },
{
    match std::path::Path::new(path).strip_prefix(base) {
        Ok(rel) => Some(rel.to_string_lossy().into_owned()),
        Err(_) => None,
    }
}

/// Calls `std::path::Path::file_name`. Claimed: the result is the named
/// `path_file_name(path)`, taken back into a `String` without loss (the
/// path was built from a `&str`).
#[verifier::external_body]
fn file_name_of(path: &str) -> (r: Option<String>)
    ensures
        match r {
            Some(name) => path_file_name(path@) == Some(name@),
            None => path_file_name(path@) is None,
        },
{
    match std::path::Path::new(path).file_name() {
        Some(name) => Some(name.to_string_lossy().into_owned()),
        None => None,
    }
}

/// Whether `shellexpand::tilde` may put a home directory in place of the
/// leading `~` of `s`: `~` alone, or `~` before a separator.
pub open spec fn tilde_expandable(s: Seq<char>) -> bool {
    s.len() > 0 && s[0] == '~' && (s.len() == 1 || s[1] == '/' || s[1] == '\\')
}

/// `~` alone or before `/`: expanded on every platform.
pub open spec fn tilde_slash(s: Seq<char>) -> bool {
    s.len() > 0 && s[0] == '~' && (s.len() == 1 || s[1] == '/')
}

/// What holds of every result of `shellexpand::tilde(s)`, whatever home the
/// environment has: it is `s` itself, or, where `s` starts with an
/// expandable `~`, some home directory followed by the rest of `s`.
pub open spec fn tilde_outcome(s: Seq<char>, r: Seq<char>) -> bool {
    r == s || (tilde_expandable(s) && exists|home: Seq<char>| r == #[trigger] (home + s.drop_first()))
}

/// Tilde expansion of `s` against the home directory `home`: with a home, a
/// leading `~` alone or before `/` becomes the home; a leading `~` before
/// `\` does so on Windows only; anything else, and everything when there is
/// no home, is left as it is.
pub open spec fn tilde_expansion(s: Seq<char>, home: Option<Seq<char>>, r: Seq<char>) -> bool {
    match home {
        Some(h) => if tilde_slash(s) {
            r == h + s.drop_first()
        } else if tilde_expandable(s) {
            r == s || r == h + s.drop_first()
        } else {
            r == s
        },
        None => r == s,
    }
}

/// Every expansion against some home is one of the outcomes of `shellexpand::tilde`.
pub proof fn lemma_expansion_is_outcome(s: Seq<char>, home: Option<Seq<char>>, r: Seq<char>)
    requires
        tilde_expansion(s, home, r),
    ensures
        tilde_outcome(s, r),
{
    if let Some(h) = home {
        if r != s {
            assert(r == h + s.drop_first());
        }
    }
}

/// Calls `shellexpand::tilde_with_context` with `home` as the home
/// directory. Claimed, as its source reads: a leading `~` that is alone or
/// followed by `/` (or, on Windows, `\`) is replaced by the home when there
/// is one; otherwise the input comes back unchanged.
#[verifier::external_body]
pub(crate) fn expand_tilde(s: &str, home: &Option<String>) -> (r: String)
    ensures
        tilde_expansion(s@, text::opt_view(*home), r@),
{
    shellexpand::tilde_with_context(s, || home.as_deref()).into_owned()
}

/// `s` with every `\` turned into `/`.
pub open spec fn forward_slashes(s: Seq<char>) -> Seq<char> {
    text::replace_all(s, seq!['\\'], seq!['/'])
}

/// How a path is written in the manifest, given what is left of it under
/// the home directory (if it lies there).
pub open spec fn render_path(path: Seq<char>, rel_to_home: Option<Seq<char>>) -> Seq<char> {
    match rel_to_home {
        Some(rel) => seq!['~', '/'] + forward_slashes(rel),
        None => forward_slashes(path),
    }
}

/// How `path` is written in the manifest when the home directory is `home`.
pub open spec fn home_display(path: Seq<char>, home: Seq<char>) -> Seq<char> {
    render_path(path, path_relative_to(path, home))
}

/// The stored key that `link` chooses: the one asked for, or else the file
/// name of the linked path without a leading `.` (empty if it has none).
pub open spec fn chosen_key(requested: Option<Seq<char>>, file_name: Option<Seq<char>>) -> Seq<char> {
    match requested {
        Some(k) => k,
        None => match file_name {
            Some(n) => text::strip_leading_dot(n),
            None => Seq::empty(),
        },
    }
}

/// `s` with every `\` turned into `/`.
pub fn to_forward_slashes(s: &str) -> (r: String)
    ensures
        r@ == forward_slashes(s@),
{
    let pat = "\\";
    let rep = "/";
    proof {
        reveal_strlit("\\");
        reveal_strlit("/");
        assert(pat@ =~= seq!['\\']);
        assert(rep@ =~= seq!['/']);
    }
    replace_all_occurrences(s, pat, rep)
}

/// Writes `path` as the manifest records it, given what is left of it under
/// the home directory (`None` where it does not lie there).
pub fn render_manifest_path(path: &str, rel_to_home: Option<String>) -> (r: String)
    ensures
        r@ == render_path(path@, text::opt_view(rel_to_home)),
{
    match rel_to_home {
        Some(rel) => {
            let prefix = "~/";
            proof {
                reveal_strlit("~/");
                assert(prefix@ =~= seq!['~', '/']);
            }
            let mut out = prefix.to_owned();
            let tail = to_forward_slashes(rel.as_str());
            out.append(tail.as_str());
            out
        },
        None => to_forward_slashes(path),
    }
}

/// Writes `path` as the manifest records it when the home directory is `home`.
pub fn display_path(path: &str, home: &str) -> (r: String)
    ensures
        r@ == home_display(path@, home@),
{
    let rel = strip_path_prefix(path, home);
    render_manifest_path(path, rel)
}

/// What `normalize_path` gives for `path` when the home-directory lookup
/// answers `home`: the path written relative to that home, or a refusal
/// where there is none.
pub open spec fn normalize_outcome(
    path: Seq<char>,
    home: Option<Seq<char>>,
    r: Result<String, crate::error::LinkError>,
) -> bool {
    match home {
        Some(h) => r matches Ok(s) && s@ == home_display(path, h),
        None => r matches Err(e) && e == crate::error::LinkError::HomeUnavailable,
    }
}

/// Writes `path` as the manifest records it relative to `home`, the answer
/// of the home-directory lookup; refused where there is no home.
pub fn normalize_path_with(path: &str, home: &Option<String>) -> (r: Result<String, crate::error::LinkError>)
    ensures
        normalize_outcome(path@, text::opt_view(*home), r),
{
    match home {
        Some(h) => Ok(display_path(path, h.as_str())),
        None => Err(crate::error::LinkError::HomeUnavailable),
    }
}

/// Writes an absolute `path` as the manifest records it, relative to the home
/// directory of this user. Fails where no home directory can be found.
pub fn normalize_path(path: &str) -> (r: Result<String, crate::error::LinkError>)
    ensures
        exists|home: Option<Seq<char>>| #[trigger] crate::env::is_home_lookup(home) && normalize_outcome(path@, home, r),
        match r {
            Ok(s) => exists|home: Seq<char>| s@ == #[trigger] home_display(path@, home),
            Err(e) => e == crate::error::LinkError::HomeUnavailable,
        },
{
    let home = home_directory();
    let r = normalize_path_with(path, &home);
    proof {
        if home is Some {
            let h = home->0;
            assert(r->Ok_0@ == home_display(path@, h@));
        }
    }
    r
}

/// The stored key `link` uses: `requested` if given, else `file_name`
/// without one leading `.`, else the empty key.
pub fn choose_stored_key(requested: Option<String>, file_name: Option<String>) -> (k: String)
    ensures
        k@ == chosen_key(text::opt_view(requested), text::opt_view(file_name)),
{
    match requested {
        Some(k) => k,
        None => match file_name {
            Some(n) => without_leading_dot(n.as_str()),
            None => String::new(),
        },
    }
}

/// The stored key `link` uses for the system path `system_abs`.
pub fn stored_key_for(requested: Option<String>, system_abs: &str) -> (k: String)
    ensures
        k@ == chosen_key(text::opt_view(requested), path_file_name(system_abs@)),
{
    let name = file_name_of(system_abs);
    choose_stored_key(requested, name)
}

} // verus!
