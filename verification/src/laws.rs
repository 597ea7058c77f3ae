//! Properties of the library that span several calls.

use vstd::prelude::*;
use crate::manifest;
use crate::manifest::{map_of, map_of_pairs, sorted_keys, EntryView};
use crate::paths;
use crate::text;
use crate::handler;
use crate::handler::{InputLocation, LinkSource};
use crate::error::LinkError;

verus! {

/// `link` undone by `unlink`: recording a new key and then taking it out
/// again leaves the manifest listing exactly as it was.
pub proof fn law_link_then_unlink_restores(
    before: Seq<EntryView>,
    linked: Seq<EntryView>,
    unlinked: Seq<EntryView>,
    key: Seq<char>,
    path: Seq<char>,
)
    requires
        sorted_keys(before),
        sorted_keys(linked),
        sorted_keys(unlinked),
        !map_of(before).contains_key(key),
        map_of(linked) == map_of(before).insert(key, path),
        map_of(unlinked) == map_of(linked).remove(key),
    ensures
        unlinked == before,
{
    assert(map_of(unlinked) =~= map_of(before));
    manifest::lemma_sorted_listing_unique(unlinked, before);
}

/// `unlink` undone by `link`: taking an entry out and recording it again
/// with the same system path leaves the manifest listing as it was.
pub proof fn law_unlink_then_link_restores(
    before: Seq<EntryView>,
    unlinked: Seq<EntryView>,
    relinked: Seq<EntryView>,
    key: Seq<char>,
)
    requires
        sorted_keys(before),
        sorted_keys(unlinked),
        sorted_keys(relinked),
        map_of(before).contains_key(key),
        map_of(unlinked) == map_of(before).remove(key),
        map_of(relinked) == map_of(unlinked).insert(key, map_of(before)[key]),
    ensures
        relinked == before,
{
    assert(map_of(relinked) =~= map_of(before));
    manifest::lemma_sorted_listing_unique(relinked, before);
}

/// Reading back what was recorded: after recording `key` with `path`, the
/// manifest gives `path` for `key`, and every other key as before.
pub proof fn law_record_reads_back(
    before: Seq<EntryView>,
    after: Seq<EntryView>,
    key: Seq<char>,
    path: Seq<char>,
    other: Seq<char>,
)
    requires
        sorted_keys(before),
        sorted_keys(after),
        map_of(after) == map_of(before).insert(key, path),
    ensures
        manifest::lookup(after, key) == Some(path),
        other != key ==> manifest::lookup(after, other) == manifest::lookup(before, other),
{
    assert(map_of(after).contains_key(key));
    assert(map_of(after)[key] == path);
    if other != key {
        assert(map_of(after).contains_key(other) == map_of(before).contains_key(other));
        if map_of(before).contains_key(other) {
            assert(map_of(after)[other] == map_of(before)[other]);
        }
    }
}

/// What `link` records, `deploy` visits: after recording `key` with `path`,
/// the listing that `deploy` walks holds the entry `(key, path)`.
pub proof fn law_recorded_entry_is_listed(
    before: Seq<EntryView>,
    after: Seq<EntryView>,
    key: Seq<char>,
    path: Seq<char>,
)
    requires
        sorted_keys(before),
        sorted_keys(after),
        map_of(after) == map_of(before).insert(key, path),
    ensures
        exists|i: int| 0 <= i < after.len() && #[trigger] after[i] == (key, path),
{
    manifest::lemma_sorted_distinct(after);
    assert(map_of(after).contains_key(key));
    manifest::lemma_lookup_some(after, key);
    let i = choose|i: int| 0 <= i < after.len() && #[trigger] after[i].0 == key && manifest::lookup(after, key) == Some(after[i].1);
    assert(map_of(after)[key] == manifest::lookup(after, key)->0);
    assert(after[i].1 == path);
    assert(after[i] == (key, path));
}

/// The manifest keeps one listing per content: two well-formed manifests that
/// map the same keys to the same paths list them in the same order, so
/// `deploy` visits entries in the same (key) order however they were added.
pub proof fn law_listing_determined_by_contents(a: Seq<EntryView>, b: Seq<EntryView>)
    requires
        sorted_keys(a),
        sorted_keys(b),
        map_of(a) == map_of(b),
    ensures
        a == b,
{
    manifest::lemma_sorted_listing_unique(a, b);
}

proof fn lemma_pairs_of_sorted(s: Seq<EntryView>)
    requires
        sorted_keys(s),
    ensures
        map_of_pairs(s) == map_of(s),
    decreases s.len(),
{
    manifest::lemma_sorted_distinct(s);
    if s.len() > 0 {
        let t = s.drop_last();
        assert(sorted_keys(t)) by {
            assert forall|i: int, j: int| 0 <= i < j < t.len() implies crate::keys::key_lt(#[trigger] t[i].0, #[trigger] t[j].0) by {
                assert(t[i] == s[i] && t[j] == s[j]);
            }
        }
        lemma_pairs_of_sorted(t);
        manifest::lemma_sorted_distinct(t);
        let last = s.last();
        assert(map_of(s) =~= map_of(t).insert(last.0, last.1)) by {
            assert forall|k: Seq<char>| #[trigger] manifest::lookup(s, k) == (if k == last.0 {
                Some(last.1)
            } else {
                manifest::lookup(t, k)
            }) by {
                manifest::lemma_lookup_none(s, k);
                manifest::lemma_lookup_none(t, k);
                if k == last.0 {
                    manifest::lemma_lookup_index(s, s.len() - 1);
                } else if manifest::lookup(t, k) is Some {
                    let j = choose|j: int| 0 <= j < t.len() && #[trigger] t[j].0 == k;
                    manifest::lemma_lookup_index(t, j);
                    assert(s[j] == t[j]);
                    manifest::lemma_lookup_index(s, j);
                } else {
                    assert forall|j: int| 0 <= j < s.len() implies #[trigger] s[j].0 != k by {
                        if j < s.len() - 1 {
                            assert(s[j] == t[j]);
                        }
                    }
                }
            }
        }
    } else {
        assert(map_of(s) =~= Map::<Seq<char>, Seq<char>>::empty());
    }
}

/// Writing a manifest out as its pairs and building it again from those
/// pairs gives back the same listing.
pub proof fn law_pairs_round_trip(written: Seq<EntryView>, read: Seq<EntryView>)
    requires
        sorted_keys(written),
        sorted_keys(read),
        map_of(read) == map_of_pairs(written),
    ensures
        read == written,
{
    lemma_pairs_of_sorted(written);
    manifest::lemma_sorted_listing_unique(read, written);
}

/// Paths as the manifest writes them hold no `\`.
pub proof fn law_forward_slashes_only(s: Seq<char>)
    ensures
        forall|i: int| 0 <= i < paths::forward_slashes(s).len() ==> #[trigger] paths::forward_slashes(s)[i] != '\\',
    decreases s.len(),
{
    let pat = seq!['\\'];
    let rep = seq!['/'];
    if s.len() >= 1 {
        law_forward_slashes_only(s.drop_first());
        law_forward_slashes_only(s.skip(1));
        assert(s.skip(1) =~= s.drop_first());
        if s.take(1) =~= pat {
            assert(paths::forward_slashes(s) == rep + paths::forward_slashes(s.skip(1)));
        } else {
            assert(s[0] != '\\') by {
                if s[0] == '\\' {
                    assert(s.take(1) =~= pat);
                }
            }
            assert(paths::forward_slashes(s) == seq![s[0]] + paths::forward_slashes(s.drop_first()));
        }
    }
}

/// A manifest path never holds `\`, whether written under the home directory or not.
pub proof fn law_rendered_paths_use_forward_slashes(path: Seq<char>, rel: Option<Seq<char>>)
    ensures
        forall|i: int| 0 <= i < paths::render_path(path, rel).len() ==> #[trigger] paths::render_path(path, rel)[i]
            != '\\',
{
    law_forward_slashes_only(path);
    match rel {
        Some(r) => {
            law_forward_slashes_only(r);
            let out = paths::render_path(path, rel);
            assert forall|i: int| 0 <= i < out.len() implies #[trigger] out[i] != '\\' by {
                if i >= 2 {
                    assert(out[i] == paths::forward_slashes(r)[i - 2]);
                }
            }
        },
        None => {},
    }
}

/// A command without the pattern is left as it is by the replacement.
pub proof fn law_replace_without_occurrence(s: Seq<char>, pat: Seq<char>, rep: Seq<char>)
    requires
        pat.len() > 0,
        !text::occurs_in(s, pat),
    ensures
        text::replace_all(s, pat, rep) == s,
    decreases s.len(),
{
    if s.len() >= pat.len() {
        assert(s.take(pat.len() as int) != pat) by {
            assert(!text::occurs_at(s, 0, pat));
            assert(s.subrange(0, pat.len() as int) =~= s.take(pat.len() as int));
        }
        let t = s.drop_first();
        assert(!text::occurs_in(t, pat)) by {
            if text::occurs_in(t, pat) {
                let i = choose|i: int| #[trigger] text::occurs_at(t, i, pat);
                assert(s.subrange(i + 1, i + 1 + pat.len()) =~= t.subrange(i, i + pat.len()));
                assert(text::occurs_at(s, i + 1, pat));
            }
        }
        law_replace_without_occurrence(t, pat, rep);
        assert(seq![s[0]] + t =~= s);
    }
}

/// Writing a path for the manifest: a path that lies under the home the
/// lookup reports is written `~/` and the rest (with `/` separators), and
/// expanding that written form against the same home gives the home, `/`
/// and that rest; a path not under the home is written as it is (with `/`).
pub proof fn law_normalize_relative_to_home(
    path: Seq<char>,
    home: Seq<char>,
    r: Result<String, LinkError>,
    expanded: Seq<char>,
)
    requires
        paths::normalize_outcome(path, Some(home), r),
    ensures
        paths::path_relative_to(path, home) matches Some(rel) ==> (r matches Ok(s) && s@ == seq!['~', '/']
            + paths::forward_slashes(rel) && s@.take(2) == seq!['~', '/'] && (paths::tilde_expansion(
            s@,
            Some(home),
            expanded,
        ) ==> expanded == home + seq!['/'] + paths::forward_slashes(rel))),
        paths::path_relative_to(path, home) is None ==> (r matches Ok(s) && s@ == paths::forward_slashes(path)),
{
    if let Some(rel) = paths::path_relative_to(path, home) {
        let s = r->Ok_0@;
        assert(s == seq!['~', '/'] + paths::forward_slashes(rel));
        assert(s.take(2) =~= seq!['~', '/']);
        assert(paths::tilde_slash(s));
        assert(s.drop_first() =~= seq!['/'] + paths::forward_slashes(rel));
        assert(home + s.drop_first() =~= home + seq!['/'] + paths::forward_slashes(rel));
    }
}

/// Tilde expansion against a known home: a path `~` or `~/...` becomes the
/// home followed by the rest, so it is never left as it was unless the home
/// itself starts with `~`; with no home, nothing changes.
pub proof fn law_expansion_uses_home(s: Seq<char>, home: Option<Seq<char>>, r: Seq<char>)
    requires
        paths::tilde_expansion(s, home, r),
    ensures
        home is Some && paths::tilde_slash(s) ==> r == home->0 + s.drop_first(),
        home is Some && paths::tilde_slash(s) && home->0.len() > 0 && home->0[0] != '~' ==> r != s,
        home is None ==> r == s,
        !paths::tilde_expandable(s) ==> r == s,
{
    if let Some(h) = home {
        if paths::tilde_slash(s) && h.len() > 0 && h[0] != '~' {
            assert((h + s.drop_first())[0] == h[0]);
        }
    }
}

/// What `link` moved into the repository is found again where `link` took it
/// from: expanding the recorded system path against the same home (as
/// `deploy` and `unlink` do) gives the very path `link_source` gave, and for
/// a path under the home that is the home, `/` and the rest of the path.
pub proof fn law_linked_path_found_again(
    absolute: Seq<char>,
    home: Seq<char>,
    src: LinkSource,
    expanded: Seq<char>,
)
    requires
        handler::link_source_with_home(absolute, Some(home), Ok(src)),
        paths::tilde_expansion(src.system_path@, Some(home), expanded),
    ensures
        !paths::tilde_expandable(src.system_path@) || paths::tilde_slash(src.system_path@) ==> expanded
            == src.system_abs@,
        paths::path_relative_to(absolute, home) matches Some(rel) ==> src.system_path@ == seq!['~', '/']
            + paths::forward_slashes(rel) && src.system_abs@ == home + seq!['/'] + paths::forward_slashes(rel),
{
    if let Some(rel) = paths::path_relative_to(absolute, home) {
        let p = src.system_path@;
        assert(p == seq!['~', '/'] + paths::forward_slashes(rel));
        assert(paths::tilde_slash(p));
        assert(p.drop_first() =~= seq!['/'] + paths::forward_slashes(rel));
        assert(home + p.drop_first() =~= home + seq!['/'] + paths::forward_slashes(rel));
    }
}

/// `unlink` of a path that `link` recorded: naming the entry by the same
/// absolute path, under the same home, finds an entry recorded for that
/// path (the first such in key order), not a refusal.
pub proof fn law_linked_path_is_identified(
    repo: Seq<char>,
    before: Seq<EntryView>,
    after: Seq<EntryView>,
    key: Seq<char>,
    home: Seq<char>,
    src: LinkSource,
    input: Seq<char>,
    loc: InputLocation,
    r: Result<Seq<char>, LinkError>,
)
    requires
        sorted_keys(before),
        sorted_keys(after),
        handler::link_source_with_home(loc.absolute@, Some(home), Ok(src)),
        map_of(after) == map_of(before).insert(key, src.system_path@),
        handler::identify_with_home(repo, after, input, Some(loc), Some(home), r),
    ensures
        r matches Ok(k) && map_of(after).contains_key(k) && (map_of(after)[k] == src.system_path@ || k == input),
{
    manifest::lemma_sorted_distinct(after);
    if !map_of(after).contains_key(input) {
        let t = src.system_path@;
        assert(map_of(after).contains_key(key));
        manifest::lemma_lookup_some(after, key);
        let i = choose|i: int| 0 <= i < after.len() && #[trigger] after[i].0 == key && manifest::lookup(after, key) == Some(after[i].1);
        assert(map_of(after)[key] == t);
        assert(after[i].1 == t);
        manifest::lemma_first_key_with_target_found(after, t, i);
        let k = manifest::first_key_with_target(after, t)->0;
        assert(map_of(after).contains_key(k));
        assert(map_of(after)[k] == t);
    }
}

} // verus!
