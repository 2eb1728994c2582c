//! The version store: layout and lifecycle decisions for versioned bundles.
//!
//! A version is a file name of the form `<stem>.tar.gz` under the `versions`
//! directory of the installation root.  Paths are byte strings with `/` as
//! separator.  The store decides; the filesystem work is the caller's.

use vstd::prelude::*;

use crate::text::{ascii, bytes_eq, ends_with, first_sep, lit, push_all, split_bytes};

verus! {

/// The archive suffix every launchable bundle carries.
pub open spec fn tar_gz() -> Seq<u8> {
    ascii(".tar.gz"@)
}

/// `s` with every repetition of the suffix `suf` removed from its end.
pub open spec fn strip_suffix_all(s: Seq<u8>, suf: Seq<u8>) -> Seq<u8>
    decreases s.len(),
{
    if suf.len() > 0 && s.len() >= suf.len() && s.skip(s.len() - suf.len()) == suf {
        strip_suffix_all(s.take(s.len() - suf.len()), suf)
    } else {
        s
    }
}

/// The stem of a version name: the name with every trailing `.tar.gz`
/// removed.
pub open spec fn stem_of(version: Seq<u8>) -> Seq<u8> {
    strip_suffix_all(version, tar_gz())
}

/// Removes every trailing repetition of `suf` from `s`.
pub fn strip_suffix(s: &[u8], suf: &[u8]) -> (r: Vec<u8>)
    ensures
        r@ == strip_suffix_all(s@, suf@),
{
    let mut end: usize = s.len();
    proof {
        assert(s@.take(end as int) =~= s@);
    }
    loop
        invariant
            end <= s@.len(),
            strip_suffix_all(s@, suf@) == strip_suffix_all(s@.take(end as int), suf@),
        ensures
            end <= s@.len(),
            strip_suffix_all(s@, suf@) == s@.take(end as int),
        decreases end,
    {
        let ghost rest = s@.take(end as int);
        if suf.len() == 0 || end < suf.len() {
            break;
        }
        let tail = vstd::slice::slice_subrange(s, end - suf.len(), end);
        proof {
            assert(rest.skip(rest.len() - suf@.len()) =~= s@.subrange(
                end - suf@.len(),
                end as int,
            ));
        }
        if !bytes_eq(tail, suf) {
            break;
        }
        proof {
            assert(rest.take(rest.len() - suf@.len()) =~= s@.take(end - suf@.len()));
        }
        end -= suf.len();
    }
    let r = vstd::slice::slice_to_vec(vstd::slice::slice_subrange(s, 0, end));
    proof {
        assert(r@ =~= s@.take(end as int));
    }
    r
}

/// The stem of a version name.
pub fn version_stem(version: &[u8]) -> (r: Vec<u8>)
    ensures
        r@ == stem_of(version@),
{
    proof {
        reveal_strlit(".tar.gz");
    }
    let suf = lit(".tar.gz");
    strip_suffix(version, suf.as_slice())
}

/// Index of the last occurrence of `b` in `s`, or `-1`.
pub open spec fn last_pos(s: Seq<u8>, b: u8) -> int
    decreases s.len(),
{
    if s.len() == 0 {
        -1
    } else if s.last() == b {
        s.len() - 1
    } else {
        last_pos(s.drop_last(), b)
    }
}

pub proof fn lemma_last_pos_is(s: Seq<u8>, b: u8, i: int)
    requires
        -1 <= i < s.len(),
        i >= 0 ==> s[i] == b,
        forall|j: int| i < j < s.len() ==> s[j] != b,
    ensures
        last_pos(s, b) == i,
    decreases s.len(),
{
    if s.len() > 0 && s.last() != b {
        assert(i < s.len() - 1);
        lemma_last_pos_is(s.drop_last(), b, i);
    }
}

/// Index of the last occurrence of `b` in `s`, or `s.len()` when `b` does
/// not occur (so the result is `last_pos` shifted to stay unsigned).
fn find_last(s: &[u8], b: u8) -> (r: usize)
    ensures
        r <= s@.len(),
        r < s@.len() ==> s@[r as int] == b && last_pos(s@, b) == r,
        r == s@.len() ==> last_pos(s@, b) == -1,
{
    let mut i: usize = s.len();
    while i > 0
        invariant
            i <= s@.len(),
            forall|j: int| i <= j < s@.len() ==> s@[j] != b,
        decreases i,
    {
        i -= 1;
        if s[i] == b {
            proof {
                lemma_last_pos_is(s@, b, i as int);
            }
            return i;
        }
    }
    proof {
        lemma_last_pos_is(s@, b, -1);
    }
    s.len()
}

/// Where the file name of path `p` starts: right after the last `/`.
pub open spec fn name_start(p: Seq<u8>) -> int {
    last_pos(p, '/' as u8) + 1
}

/// `p` with the extension of its file name replaced by `exe`, or with
/// `.exe` appended when the name has none.  A dot that begins the file name
/// does not count as an extension separator.
pub open spec fn with_exe_ext(p: Seq<u8>) -> Seq<u8> {
    let d = last_pos(p, '.' as u8);
    if d > name_start(p) {
        p.take(d) + ascii(".exe"@)
    } else {
        p + ascii(".exe"@)
    }
}

/// Gives a path the executable extension proper to the platform: `.exe` on
/// Windows, none elsewhere.
pub fn set_proper_executable_extension(path: Vec<u8>, windows: bool) -> (r: Vec<u8>)
    ensures
        windows ==> r@ == with_exe_ext(path@),
        !windows ==> r@ == path@,
{
    if !windows {
        return path;
    }
    proof {
        reveal_strlit(".exe");
    }
    let slash = find_last(path.as_slice(), '/' as u8);
    let dot = find_last(path.as_slice(), '.' as u8);
    let dot_found: bool = dot < path.len();
    let slash_found: bool = slash < path.len();
    let ghost ns = name_start(path@);
    proof {
        if slash_found {
            assert(ns == slash + 1);
        } else {
            assert(ns == 0);
        }
    }
    let name_from: usize = if slash_found {
        slash + 1
    } else {
        0
    };
    let mut r: Vec<u8>;
    if dot_found && dot > name_from {
        r = vstd::slice::slice_to_vec(vstd::slice::slice_subrange(path.as_slice(), 0, dot));
        proof {
            assert(r@ =~= path@.take(dot as int));
        }
    } else {
        r = path;
    }
    let suffix = lit(".exe");
    push_all(&mut r, suffix.as_slice());
    r
}

/// The executable path of a version inside the installation root, or
/// nothing when the name is neither empty nor a `.tar.gz` bundle.  The
/// empty name maps to the empty path; a bundle `<stem>.tar.gz` maps to
/// `<root>/versions/<stem>/<stem>/<token>` where `<token>` is the part of
/// the stem before the first `-`, with `.exe` applied on Windows.
pub open spec fn version_exe_path(root: Seq<u8>, version: Seq<u8>, windows: bool) -> Option<
    Seq<u8>,
> {
    if version.len() == 0 {
        Some(Seq::empty())
    } else if version.len() >= tar_gz().len() && version.skip(version.len() - tar_gz().len())
        == tar_gz() {
        let stem = stem_of(version);
        let token = stem.take(first_sep(stem, '-' as u8));
        let p = root + ascii("/versions/"@) + stem + seq!['/' as u8] + stem + seq!['/' as u8]
            + token;
        if windows {
            Some(with_exe_ext(p))
        } else {
            Some(p)
        }
    } else {
        None
    }
}

/// A version name that is neither empty nor a `.tar.gz` bundle; only
/// bundles can be launched.
#[derive(Debug)]
pub struct BadVersionName;

/// Computes the executable location of a version under the installation
/// root: exactly [`version_exe_path`], and an error exactly when that gives
/// nothing.
pub fn get_specific_version_location(app_root: &[u8], version: &[u8], windows: bool) -> (r:
    Result<Vec<u8>, BadVersionName>)
    ensures
        match r {
            Ok(p) => version_exe_path(app_root@, version@, windows) == Some(p@),
            Err(_) => version_exe_path(app_root@, version@, windows) is None,
        },
{
    proof {
        reveal_strlit(".tar.gz");
        reveal_strlit("/versions/");
    }
    if version.len() == 0 {
        let r: Vec<u8> = Vec::new();
        proof {
            assert(r@ =~= Seq::<u8>::empty());
        }
        return Ok(r);
    }
    let suf = lit(".tar.gz");
    if !ends_with(version, suf.as_slice()) {
        return Err(BadVersionName);
    }
    let stem = version_stem(version);
    let dash = crate::text::find_from(stem.as_slice(), 0, '-' as u8);
    proof {
        crate::text::lemma_first_sep_is(stem@, '-' as u8, dash as int);
    }
    let token = vstd::slice::slice_subrange(stem.as_slice(), 0, dash);
    let mut p = vstd::slice::slice_to_vec(app_root);
    let mid = lit("/versions/");
    push_all(&mut p, mid.as_slice());
    push_all(&mut p, stem.as_slice());
    p.push('/' as u8);
    push_all(&mut p, stem.as_slice());
    p.push('/' as u8);
    push_all(&mut p, token);
    proof {
        let stem_s = stem_of(version@);
        let token_s = stem_s.take(first_sep(stem_s, '-' as u8));
        assert(p@ =~= app_root@ + ascii("/versions/"@) + stem_s + seq!['/' as u8] + stem_s + seq![
            '/' as u8,
        ] + token_s);
    }
    if windows {
        Ok(set_proper_executable_extension(p, true))
    } else {
        Ok(p)
    }
}

/// The `versions` directory under the installation root.
pub fn get_versions_dir(app_root: &[u8]) -> (r: Vec<u8>)
    ensures
        r@ == app_root@ + ascii("/versions"@),
{
    proof {
        reveal_strlit("/versions");
    }
    let mut p = vstd::slice::slice_to_vec(app_root);
    let tail = lit("/versions");
    push_all(&mut p, tail.as_slice());
    p
}

/// The directory a bundle unpacks into: the `versions` directory plus the
/// bundle name with its last two extensions removed (`x.tar.gz` unpacks
/// into `x`).
pub open spec fn drop_last_ext(p: Seq<u8>) -> Seq<u8> {
    let d = last_pos(p, '.' as u8);
    if d > name_start(p) {
        p.take(d)
    } else {
        p
    }
}

/// Computes where the bundle file `filename` unpacks, under the
/// installation root.
pub fn unpack_destination(app_root: &[u8], filename: &[u8]) -> (r: Vec<u8>)
    ensures
        r@ == app_root@ + ascii("/versions/"@) + drop_last_ext(drop_last_ext(filename@)),
{
    proof {
        reveal_strlit("/versions/");
    }
    let once = drop_extension(filename);
    let twice = drop_extension(once.as_slice());
    let mut p = vstd::slice::slice_to_vec(app_root);
    let mid = lit("/versions/");
    push_all(&mut p, mid.as_slice());
    push_all(&mut p, twice.as_slice());
    p
}

/// Removes the last extension of the file name of `p`, if it has one.
fn drop_extension(p: &[u8]) -> (r: Vec<u8>)
    ensures
        r@ == drop_last_ext(p@),
{
    let slash = find_last(p, '/' as u8);
    let dot = find_last(p, '.' as u8);
    let slash_found: bool = slash < p.len();
    let name_from: usize = if slash_found {
        slash + 1
    } else {
        0
    };
    if dot < p.len() && dot > name_from {
        let r = vstd::slice::slice_to_vec(vstd::slice::slice_subrange(p, 0, dot));
        proof {
            assert(r@ =~= p@.take(dot as int));
        }
        r
    } else {
        vstd::slice::slice_to_vec(p)
    }
}

/// Whether a download destination name stays inside the versions
/// directory: no path separator and no drive colon.
pub open spec fn safe_filename(name: Seq<u8>) -> bool {
    &&& !name.contains('/' as u8)
    &&& !name.contains('\\' as u8)
    &&& !name.contains(':' as u8)
}

/// Checks that a download destination name is safe to create under the
/// versions directory.
pub fn is_safe_filename(name: &[u8]) -> (r: bool)
    ensures
        r == safe_filename(name@),
{
    let a = crate::text::contains_byte(name, '/' as u8);
    let b = crate::text::contains_byte(name, '\\' as u8);
    let c = crate::text::contains_byte(name, ':' as u8);
    !a && !b && !c
}

/// Whether deleting `version` is allowed: everything may go except the
/// active version, named in full or by stem.
pub open spec fn can_delete(version: Seq<u8>, newest: Seq<u8>) -> bool {
    stem_of(version) != stem_of(newest)
}

/// Decides whether `version` may be deleted while `newest` is active.
pub fn delete_allowed(version: &[u8], newest: &[u8]) -> (r: bool)
    ensures
        r == can_delete(version@, newest@),
{
    let a = version_stem(version);
    let b = version_stem(newest);
    !bytes_eq(a.as_slice(), b.as_slice())
}

/// The directory entries a delete of `version` removes: the archive itself
/// and its stem-named sibling, and nothing else.
pub open spec fn delete_targets_spec(entries: Seq<Seq<u8>>, version: Seq<u8>) -> Seq<Seq<u8>>
    decreases entries.len(),
{
    if entries.len() == 0 {
        Seq::empty()
    } else {
        (if entries.first() == version || entries.first() == stem_of(version) {
            seq![entries.first()]
        } else {
            Seq::empty()
        }) + delete_targets_spec(entries.drop_first(), version)
    }
}

proof fn lemma_delete_targets_append(entries: Seq<Seq<u8>>, e: Seq<u8>, version: Seq<u8>)
    ensures
        delete_targets_spec(entries.push(e), version) == delete_targets_spec(entries, version) + (
        if e == version || e == stem_of(version) {
            seq![e]
        } else {
            Seq::<Seq<u8>>::empty()
        }),
    decreases entries.len(),
{
    let whole = entries.push(e);
    let tail = (if e == version || e == stem_of(version) {
        seq![e]
    } else {
        Seq::<Seq<u8>>::empty()
    });
    if entries.len() == 0 {
        assert(whole.first() == e);
        assert(whole.drop_first() =~= Seq::<Seq<u8>>::empty());
        assert(delete_targets_spec(whole.drop_first(), version) =~= Seq::<Seq<u8>>::empty());
        assert(delete_targets_spec(whole, version) =~= delete_targets_spec(entries, version)
            + tail);
    } else {
        assert(whole.first() == entries.first());
        assert(whole.drop_first() =~= entries.drop_first().push(e));
        lemma_delete_targets_append(entries.drop_first(), e, version);
        assert(delete_targets_spec(whole, version) =~= delete_targets_spec(entries, version)
            + tail);
    }
}

/// A delete touches exactly the right files: a directory entry is removed
/// precisely when it is the version's archive or its stem-named sibling;
/// everything else stays.
pub proof fn lemma_delete_targets_exact(entries: Seq<Seq<u8>>, version: Seq<u8>, e: Seq<u8>)
    ensures
        delete_targets_spec(entries, version).contains(e) <==> (entries.contains(e) && (e
            == version || e == stem_of(version))),
    decreases entries.len(),
{
    let t = delete_targets_spec(entries, version);
    if entries.len() > 0 {
        lemma_delete_targets_exact(entries.drop_first(), version, e);
        let head = (if entries.first() == version || entries.first() == stem_of(version) {
            seq![entries.first()]
        } else {
            Seq::<Seq<u8>>::empty()
        });
        let rest = delete_targets_spec(entries.drop_first(), version);
        if t.contains(e) {
            let k = choose|k: int| 0 <= k < t.len() && t[k] == e;
            if k < head.len() {
                assert(e == entries.first());
                assert(entries[0] == e);
            } else {
                assert(rest[k - head.len()] == e);
                assert(rest.contains(e));
                let i = choose|i: int|
                    0 <= i < entries.drop_first().len() && entries.drop_first()[i] == e;
                assert(entries[i + 1] == e);
            }
        }
        if entries.contains(e) && (e == version || e == stem_of(version)) {
            let i = choose|i: int| 0 <= i < entries.len() && entries[i] == e;
            if i == 0 {
                assert(t[0] == e);
            } else {
                assert(entries.drop_first()[i - 1] == e);
                assert(rest.contains(e));
                let k = choose|k: int| 0 <= k < rest.len() && rest[k] == e;
                assert(t[k + head.len()] == e);
            }
        }
    }
}

/// Picks, out of the given directory entries, exactly those a delete of
/// `version` removes: the archive and its stem-named directory.
pub fn delete_targets(entries: &Vec<Vec<u8>>, version: &[u8]) -> (r: Vec<Vec<u8>>)
    ensures
        r@.map_values(|v: Vec<u8>| v@) == delete_targets_spec(
            entries@.map_values(|v: Vec<u8>| v@),
            version@,
        ),
{
    let ghost all = entries@.map_values(|v: Vec<u8>| v@);
    let stem = version_stem(version);
    let mut r: Vec<Vec<u8>> = Vec::new();
    let mut i: usize = 0;
    proof {
        assert(r@.map_values(|v: Vec<u8>| v@) =~= Seq::<Seq<u8>>::empty());
        assert(all.take(0) =~= Seq::<Seq<u8>>::empty());
    }
    while i < entries.len()
        invariant
            i <= entries@.len(),
            all == entries@.map_values(|v: Vec<u8>| v@),
            stem@ == stem_of(version@),
            r@.map_values(|v: Vec<u8>| v@) == delete_targets_spec(all.take(i as int), version@),
        decreases entries@.len() - i,
    {
        let e = entries[i].as_slice();
        if bytes_eq(e, version) || bytes_eq(e, stem.as_slice()) {
            r.push(vstd::slice::slice_to_vec(e));
        }
        proof {
            lemma_delete_targets_append(all.take(i as int), all[i as int], version@);
            assert(all.take(i + 1) =~= all.take(i as int).push(all[i as int]));
            assert(r@.map_values(|v: Vec<u8>| v@) =~= delete_targets_spec(
                all.take(i + 1),
                version@,
            ));
        }
        i += 1;
    }
    proof {
        assert(all.take(i as int) =~= all);
    }
    r
}

/// The text the version listing answers: the word `versions`, then each
/// entry after one space.
pub open spec fn versions_line(entries: Seq<Seq<u8>>) -> Seq<u8>
    decreases entries.len(),
{
    if entries.len() == 0 {
        ascii("versions"@)
    } else {
        versions_line(entries.drop_last()) + seq![' ' as u8] + entries.last()
    }
}

/// Renders the version listing.
pub fn render_versions(entries: &Vec<Vec<u8>>) -> (r: Vec<u8>)
    ensures
        r@ == versions_line(entries@.map_values(|v: Vec<u8>| v@)),
{
    proof {
        reveal_strlit("versions");
    }
    let ghost all = entries@.map_values(|v: Vec<u8>| v@);
    let mut r = lit("versions");
    let mut i: usize = 0;
    proof {
        assert(all.take(0) =~= Seq::<Seq<u8>>::empty());
    }
    while i < entries.len()
        invariant
            i <= entries@.len(),
            all == entries@.map_values(|v: Vec<u8>| v@),
            r@ == versions_line(all.take(i as int)),
        decreases entries@.len() - i,
    {
        r.push(' ' as u8);
        push_all(&mut r, entries[i].as_slice());
        proof {
            assert(all.take(i + 1).drop_last() =~= all.take(i as int));
            assert(all.take(i + 1).last() == all[i as int]);
            assert(r@ =~= versions_line(all.take(i + 1)));
        }
        i += 1;
    }
    proof {
        assert(all.take(i as int) =~= all);
    }
    r
}

} // verus!
