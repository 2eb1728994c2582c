//! Layered key/value configuration.
//!
//! Configuration comes from `installation.env`, `launcher.env` and the
//! process environment, merged in that order into a list of key/value pairs.
//! Each key is stripped of the client prefix and matched against the
//! recognized set; unknown keys are ignored.  Boolean keys accept only "0"
//! and "1".

use vstd::prelude::*;

use crate::text::{
    all_digits, ascii, bytes_eq, dec_value, first_sep, lit, parse_u64, split, split_bytes, trim,
    trimmed,
};

verus! {

/// Prefix of every recognized environment variable.
pub open spec fn client_prefix() -> Seq<u8> {
    ascii("TAIGACHAT_CLIENT_"@)
}

/// `k` with every repetition of the prefix `p` removed from its front.
pub open spec fn strip_prefix_all(k: Seq<u8>, p: Seq<u8>) -> Seq<u8>
    decreases k.len(),
{
    if p.len() > 0 && k.len() >= p.len() && k.take(p.len() as int) == p {
        strip_prefix_all(k.skip(p.len() as int), p)
    } else {
        k
    }
}

/// Removes every leading repetition of `p` from `k`.
pub fn strip_prefix(k: &[u8], p: &[u8]) -> (r: Vec<u8>)
    ensures
        r@ == strip_prefix_all(k@, p@),
{
    let mut start: usize = 0;
    proof {
        assert(k@.skip(0) =~= k@);
    }
    loop
        invariant
            start <= k@.len(),
            strip_prefix_all(k@, p@) == strip_prefix_all(k@.skip(start as int), p@),
        ensures
            start <= k@.len(),
            strip_prefix_all(k@, p@) == k@.skip(start as int),
        decreases k@.len() - start,
    {
        let ghost rest = k@.skip(start as int);
        if p.len() == 0 || k.len() - start < p.len() {
            break;
        }
        let head = vstd::slice::slice_subrange(k, start, start + p.len());
        proof {
            assert(rest.take(p@.len() as int) =~= k@.subrange(start as int, start + p@.len()));
        }
        if !bytes_eq(head, p) {
            break;
        }
        proof {
            assert(rest.skip(p@.len() as int) =~= k@.skip(start + p@.len()));
        }
        start += p.len();
    }
    let r = vstd::slice::slice_to_vec(vstd::slice::slice_subrange(k, start, k.len()));
    proof {
        assert(r@ =~= k@.skip(start as int));
    }
    r
}

/// Mathematical model of a configuration snapshot.
#[verifier::ext_equal]
pub ghost struct ConfigV {
    pub launch_build_tool: bool,
    pub silent_build_tool: bool,
    pub skip_launch: bool,
    pub npm: Seq<u8>,
    pub max_keybinds: nat,
    pub use_wayland: bool,
    pub newest_version: Seq<u8>,
    pub extra_flags: Seq<Seq<u8>>,
    pub latest_launcher_builddate: Seq<u8>,
}

/// Recognized configuration options, with their defaults.
pub struct Config {
    pub launch_build_tool: bool,
    pub silent_build_tool: bool,
    pub skip_launch: bool,
    pub npm: Vec<u8>,
    pub max_keybinds: u64,
    pub use_wayland: bool,
    pub newest_version: Vec<u8>,
    pub extra_flags: Vec<Vec<u8>>,
    pub latest_launcher_builddate: Vec<u8>,
}

impl View for Config {
    type V = ConfigV;

    open spec fn view(&self) -> ConfigV {
        ConfigV {
            launch_build_tool: self.launch_build_tool,
            silent_build_tool: self.silent_build_tool,
            skip_launch: self.skip_launch,
            npm: self.npm@,
            max_keybinds: self.max_keybinds as nat,
            use_wayland: self.use_wayland,
            newest_version: self.newest_version@,
            extra_flags: self.extra_flags@.map_values(|f: Vec<u8>| f@),
            latest_launcher_builddate: self.latest_launcher_builddate@,
        }
    }
}

/// The configuration before any layer is applied.
pub open spec fn default_config() -> ConfigV {
    ConfigV {
        launch_build_tool: false,
        silent_build_tool: false,
        skip_launch: false,
        npm: ascii("pnpm"@),
        max_keybinds: 8,
        use_wayland: false,
        newest_version: Seq::empty(),
        extra_flags: Seq::empty(),
        latest_launcher_builddate: Seq::empty(),
    }
}

/// A configuration value that must be a number but is not.
#[derive(Debug)]
pub enum ConfigError {
    BadNumber,
}

/// True exactly when a boolean configuration value reads as set: only "1"
/// counts; "0" and everything else read as unset.
pub fn is_1(s: &[u8]) -> (r: bool)
    ensures
        r == (s@ == ascii("1"@)),
{
    proof {
        reveal_strlit("1");
    }
    let one = lit("1");
    bytes_eq(s, one.as_slice())
}

/// One configuration entry applied to a snapshot; `None` is the fatal case
/// of a numeric option whose value is no number.
pub open spec fn apply_entry(c: ConfigV, key: Seq<u8>, value: Seq<u8>) -> Option<ConfigV> {
    let k = strip_prefix_all(key, client_prefix());
    let on = value == ascii("1"@);
    if k == ascii("LAUNCH_BUILD_TOOL"@) {
        Some(ConfigV { launch_build_tool: on, ..c })
    } else if k == ascii("SILENT_BUILD_TOOL"@) {
        Some(ConfigV { silent_build_tool: on, ..c })
    } else if k == ascii("NPM"@) {
        Some(ConfigV { npm: value, ..c })
    } else if k == ascii("USE_WAYLAND"@) {
        Some(ConfigV { use_wayland: on, ..c })
    } else if k == ascii("SKIP_LAUNCH"@) {
        Some(ConfigV { skip_launch: on, ..c })
    } else if k == ascii("MAX_KEYBINDS"@) {
        if value.len() > 0 && all_digits(value) && dec_value(value) <= u64::MAX {
            Some(ConfigV { max_keybinds: dec_value(value), ..c })
        } else {
            None
        }
    } else if k == ascii("NEWEST_VERSION"@) {
        Some(ConfigV { newest_version: value, ..c })
    } else if k == ascii("EXTRA_FLAGS"@) {
        Some(ConfigV { extra_flags: split_bytes(value, ',' as u8), ..c })
    } else if k == ascii("LATEST_LAUNCHER_BUILDDATE"@) {
        Some(ConfigV { latest_launcher_builddate: value, ..c })
    } else {
        Some(c)
    }
}

/// A whole layer of entries applied left to right.
pub open spec fn apply_entries(c: ConfigV, ps: Seq<(Seq<u8>, Seq<u8>)>) -> Option<ConfigV>
    decreases ps.len(),
{
    if ps.len() == 0 {
        Some(c)
    } else {
        match apply_entry(c, ps.first().0, ps.first().1) {
            Some(c2) => apply_entries(c2, ps.drop_first()),
            None => None,
        }
    }
}

impl Config {
    /// The defaults: "pnpm" as package runner and at most eight keybinds.
    pub fn starting() -> (r: Config)
        ensures
            r@ == default_config(),
    {
        proof {
            reveal_strlit("pnpm");
        }
        let r = Config {
            launch_build_tool: false,
            silent_build_tool: false,
            skip_launch: false,
            npm: lit("pnpm"),
            max_keybinds: 8,
            use_wayland: false,
            newest_version: Vec::new(),
            extra_flags: Vec::new(),
            latest_launcher_builddate: Vec::new(),
        };
        proof {
            assert(r@.extra_flags =~= Seq::<Seq<u8>>::empty());
            assert(r@ =~= default_config());
        }
        r
    }

    /// Applies one key/value entry; the key arrives with its prefix still
    /// on.  Fails only on a numeric option whose value is no number, and
    /// leaves the configuration unchanged then.
    pub fn ingest_variables(&mut self, key: &[u8], value: &[u8]) -> (r: Result<(), ConfigError>)
        ensures
            match r {
                Ok(()) => Some(final(self)@) == apply_entry(old(self)@, key@, value@),
                Err(_) => {
                    &&& apply_entry(old(self)@, key@, value@) is None
                    &&& final(self)@ == old(self)@
                },
            },
    {
        proof {
            reveal_strlit("TAIGACHAT_CLIENT_");
            reveal_strlit("LAUNCH_BUILD_TOOL");
            reveal_strlit("SILENT_BUILD_TOOL");
            reveal_strlit("NPM");
            reveal_strlit("USE_WAYLAND");
            reveal_strlit("SKIP_LAUNCH");
            reveal_strlit("MAX_KEYBINDS");
            reveal_strlit("NEWEST_VERSION");
            reveal_strlit("EXTRA_FLAGS");
            reveal_strlit("LATEST_LAUNCHER_BUILDDATE");
        }
        let prefix = lit("TAIGACHAT_CLIENT_");
        let k = strip_prefix(key, prefix.as_slice());
        let ks = k.as_slice();
        let on = is_1(value);
        if bytes_eq(ks, lit("LAUNCH_BUILD_TOOL").as_slice()) {
            self.launch_build_tool = on;
        } else if bytes_eq(ks, lit("SILENT_BUILD_TOOL").as_slice()) {
            self.silent_build_tool = on;
        } else if bytes_eq(ks, lit("NPM").as_slice()) {
            self.npm = vstd::slice::slice_to_vec(value);
        } else if bytes_eq(ks, lit("USE_WAYLAND").as_slice()) {
            self.use_wayland = on;
        } else if bytes_eq(ks, lit("SKIP_LAUNCH").as_slice()) {
            self.skip_launch = on;
        } else if bytes_eq(ks, lit("MAX_KEYBINDS").as_slice()) {
            match parse_u64(value) {
                Some(n) => {
                    self.max_keybinds = n;
                },
                None => {
                    return Err(ConfigError::BadNumber);
                },
            }
        } else if bytes_eq(ks, lit("NEWEST_VERSION").as_slice()) {
            self.newest_version = vstd::slice::slice_to_vec(value);
        } else if bytes_eq(ks, lit("EXTRA_FLAGS").as_slice()) {
            self.extra_flags = split(value, ',' as u8);
        } else if bytes_eq(ks, lit("LATEST_LAUNCHER_BUILDDATE").as_slice()) {
            self.latest_launcher_builddate = vstd::slice::slice_to_vec(value);
        }
        proof {
            assert(Some(self@) =~~= apply_entry(old(self)@, key@, value@));
        }
        Ok(())
    }

    /// Builds a configuration from merged key/value pairs, applied in
    /// order; later pairs override earlier ones.
    pub fn from_pairs(pairs: &Vec<(Vec<u8>, Vec<u8>)>) -> (r: Result<Config, ConfigError>)
        ensures
            match r {
                Ok(c) => Some(c@) == apply_entries(
                    default_config(),
                    pairs@.map_values(|p: (Vec<u8>, Vec<u8>)| (p.0@, p.1@)),
                ),
                Err(_) => apply_entries(
                    default_config(),
                    pairs@.map_values(|p: (Vec<u8>, Vec<u8>)| (p.0@, p.1@)),
                ) is None,
            },
    {
        let ghost all = pairs@.map_values(|p: (Vec<u8>, Vec<u8>)| (p.0@, p.1@));
        let mut c = Config::starting();
        let mut i: usize = 0;
        proof {
            assert(all.skip(0) =~= all);
        }
        while i < pairs.len()
            invariant
                i <= pairs@.len(),
                all == pairs@.map_values(|p: (Vec<u8>, Vec<u8>)| (p.0@, p.1@)),
                apply_entries(default_config(), all) == apply_entries(c@, all.skip(i as int)),
            decreases pairs@.len() - i,
        {
            let ghost before = c@;
            let ghost rest = all.skip(i as int);
            match c.ingest_variables(pairs[i].0.as_slice(), pairs[i].1.as_slice()) {
                Ok(()) => {},
                Err(e) => {
                    proof {
                        assert(rest.first() == (pairs@[i as int].0@, pairs@[i as int].1@));
                        assert(apply_entries(before, rest) is None);
                    }
                    return Err(e);
                },
            }
            i += 1;
            proof {
                assert(rest.first() == (pairs@[i - 1].0@, pairs@[i - 1].1@));
                assert(rest.drop_first() =~= all.skip(i as int));
            }
        }
        proof {
            assert(all.skip(i as int) =~= Seq::<(Seq<u8>, Seq<u8>)>::empty());
        }
        Ok(c)
    }
}

/// Key under which the launcher build date is persisted.
pub open spec fn builddate_key() -> Seq<u8> {
    ascii("TAIGACHAT_LATEST_LAUNCHER_BUILDDATE"@)
}

/// Key under which the active version is persisted.
pub open spec fn newest_version_key() -> Seq<u8> {
    ascii("TAIGACHAT_NEWEST_VERSION"@)
}

/// The exact text written to `installation.env`: the build date line, then
/// the active-version line, each ended by a newline.
pub open spec fn install_env_text(builddate: Seq<u8>, newest_version: Seq<u8>) -> Seq<u8> {
    builddate_key() + seq!['=' as u8] + builddate + seq!['\n' as u8] + newest_version_key()
        + seq!['=' as u8] + newest_version + seq!['\n' as u8]
}

/// Renders the contents of `installation.env` for the given build date and
/// active version.
pub fn save_install_info(builddate: &[u8], newest_version: &[u8]) -> (r: Vec<u8>)
    ensures
        r@ == install_env_text(builddate@, newest_version@),
{
    proof {
        reveal_strlit("TAIGACHAT_LATEST_LAUNCHER_BUILDDATE");
        reveal_strlit("TAIGACHAT_NEWEST_VERSION");
    }
    let mut r = lit("TAIGACHAT_LATEST_LAUNCHER_BUILDDATE");
    r.push('=' as u8);
    crate::text::push_all(&mut r, builddate);
    r.push('\n' as u8);
    let key2 = lit("TAIGACHAT_NEWEST_VERSION");
    crate::text::push_all(&mut r, key2.as_slice());
    r.push('=' as u8);
    crate::text::push_all(&mut r, newest_version);
    r.push('\n' as u8);
    proof {
        assert(r@ =~= install_env_text(builddate@, newest_version@));
    }
    r
}

/// One line of an env file read as an entry: comments and lines without "="
/// yield nothing; otherwise the trimmed key before the first "=" and the
/// trimmed value after it.
pub open spec fn env_entry(line: Seq<u8>) -> Option<(Seq<u8>, Seq<u8>)> {
    let t = trimmed(line);
    if t.len() > 0 && t[0] == '#' as u8 {
        None
    } else if first_sep(t, '=' as u8) < t.len() {
        let i = first_sep(t, '=' as u8);
        Some((trimmed(t.take(i)), trimmed(t.skip(i + 1))))
    } else {
        None
    }
}

/// The entries of a sequence of lines, in order.
pub open spec fn entries_of_lines(lines: Seq<Seq<u8>>) -> Seq<(Seq<u8>, Seq<u8>)>
    decreases lines.len(),
{
    if lines.len() == 0 {
        Seq::empty()
    } else {
        (match env_entry(lines.first()) {
            Some(p) => seq![p],
            None => Seq::empty(),
        }) + entries_of_lines(lines.drop_first())
    }
}

/// The key/value pairs an env file denotes, line by line.
pub open spec fn env_pairs(content: Seq<u8>) -> Seq<(Seq<u8>, Seq<u8>)> {
    entries_of_lines(split_bytes(content, '\n' as u8))
}

/// The entry of one line, as a sequence of zero or one pairs.
pub open spec fn entry_seq(l: Seq<u8>) -> Seq<(Seq<u8>, Seq<u8>)> {
    match env_entry(l) {
        Some(p) => seq![p],
        None => Seq::empty(),
    }
}

proof fn lemma_entries_append(lines: Seq<Seq<u8>>, l: Seq<u8>)
    ensures
        entries_of_lines(lines.push(l)) == entries_of_lines(lines) + entry_seq(l),
    decreases lines.len(),
{
    let whole = lines.push(l);
    assert(entries_of_lines(whole) == entry_seq(whole.first()) + entries_of_lines(
        whole.drop_first(),
    ));
    if lines.len() == 0 {
        assert(whole.first() == l);
        assert(whole.drop_first() =~= Seq::<Seq<u8>>::empty());
        assert(entries_of_lines(whole.drop_first()) =~= Seq::<(Seq<u8>, Seq<u8>)>::empty());
        assert(entries_of_lines(lines) =~= Seq::<(Seq<u8>, Seq<u8>)>::empty());
        assert(entries_of_lines(whole) =~= entries_of_lines(lines) + entry_seq(l));
    } else {
        assert(whole.first() == lines.first());
        assert(whole.drop_first() =~= lines.drop_first().push(l));
        lemma_entries_append(lines.drop_first(), l);
        assert(entries_of_lines(whole) == entry_seq(lines.first()) + (entries_of_lines(
            lines.drop_first(),
        ) + entry_seq(l)));
        assert(entries_of_lines(lines) == entry_seq(lines.first()) + entries_of_lines(
            lines.drop_first(),
        ));
        assert(entries_of_lines(whole) =~= entries_of_lines(lines) + entry_seq(l));
    }
}

proof fn lemma_env_line(k: Seq<u8>, v: Seq<u8>)
    requires
        k.len() > 0,
        trimmed(k) == k,
        trimmed(v) == v,
        forall|j: int| 0 <= j < k.len() ==> k[j] != '=' as u8,
        k[0] != '#' as u8,
    ensures
        env_entry(k + seq!['=' as u8] + v) == Some((k, v)),
{
    let line = k + seq!['=' as u8] + v;
    crate::text::lemma_trimmed_fixed(k);
    if v.len() > 0 {
        crate::text::lemma_trimmed_fixed(v);
        assert(line.last() == v.last());
    } else {
        assert(line.last() == '=' as u8);
    }
    assert(line[0] == k[0]);
    crate::text::lemma_trimmed_identity(line);
    crate::text::lemma_first_sep_is(line, '=' as u8, k.len() as int);
    assert(line.take(k.len() as int) =~= k);
    assert(line.skip(k.len() as int + 1) =~= v);
}

proof fn lemma_env_line_prepend(line: Seq<u8>, rest: Seq<u8>)
    requires
        forall|j: int| 0 <= j < line.len() ==> line[j] != '\n' as u8,
    ensures
        env_pairs(line + seq!['\n' as u8] + rest) == entry_seq(line) + env_pairs(rest),
{
    let content = line + seq!['\n' as u8] + rest;
    crate::text::lemma_first_sep_is(content, '\n' as u8, line.len() as int);
    assert(content.take(line.len() as int) =~= line);
    assert(content.skip(line.len() as int + 1) =~= rest);
    let lines = split_bytes(content, '\n' as u8);
    assert(lines == seq![line] + split_bytes(rest, '\n' as u8));
    let tail = split_bytes(rest, '\n' as u8);
    assert(lines.first() == line);
    assert(lines.drop_first() =~= tail);
    assert(entries_of_lines(lines) == entry_seq(line) + entries_of_lines(tail));
}

/// The persisted installation file parses back to exactly the two pairs
/// last written: the build date under its key, then the active version
/// under its key.  Values must carry no newline and no blank space at
/// either end; trimming would change them otherwise.
pub proof fn lemma_install_info_round_trip(b: Seq<u8>, v: Seq<u8>)
    requires
        forall|j: int| 0 <= j < b.len() ==> b[j] != '\n' as u8,
        forall|j: int| 0 <= j < v.len() ==> v[j] != '\n' as u8,
        trimmed(b) == b,
        trimmed(v) == v,
    ensures
        env_pairs(install_env_text(b, v)) == seq![
            (builddate_key(), b),
            (newest_version_key(), v),
        ],
{
    reveal_strlit("TAIGACHAT_LATEST_LAUNCHER_BUILDDATE");
    reveal_strlit("TAIGACHAT_NEWEST_VERSION");
    let k1 = builddate_key();
    let k2 = newest_version_key();
    let line1 = k1 + seq!['=' as u8] + b;
    let line2 = k2 + seq!['=' as u8] + v;
    assert forall|j: int| 0 <= j < line1.len() implies line1[j] != '\n' as u8 by {
        if j < k1.len() {
            assert(line1[j] == k1[j]);
        } else if j == k1.len() {
            assert(line1[j] == '=' as u8);
        } else {
            assert(line1[j] == b[j - k1.len() - 1]);
        }
    }
    assert forall|j: int| 0 <= j < line2.len() implies line2[j] != '\n' as u8 by {
        if j < k2.len() {
            assert(line2[j] == k2[j]);
        } else if j == k2.len() {
            assert(line2[j] == '=' as u8);
        } else {
            assert(line2[j] == v[j - k2.len() - 1]);
        }
    }
    crate::text::lemma_trimmed_identity(k1);
    crate::text::lemma_trimmed_identity(k2);
    lemma_env_line(k1, b);
    lemma_env_line(k2, v);
    let content = install_env_text(b, v);
    assert(content =~= line1 + seq!['\n' as u8] + (line2 + seq!['\n' as u8] + Seq::<
        u8,
    >::empty()));
    lemma_env_line_prepend(line1, line2 + seq!['\n' as u8] + Seq::<u8>::empty());
    lemma_env_line_prepend(line2, Seq::<u8>::empty());
    let empty = Seq::<u8>::empty();
    crate::text::lemma_first_sep_is(empty, '\n' as u8, 0);
    assert(split_bytes(empty, '\n' as u8) == seq![empty]);
    crate::text::lemma_first_sep_is(empty, '=' as u8, 0);
    assert(trimmed(empty) =~= empty);
    assert(env_entry(empty) is None);
    let lines0 = seq![empty];
    assert(lines0.first() == empty);
    assert(lines0.drop_first() =~= Seq::<Seq<u8>>::empty());
    assert(entries_of_lines(lines0.drop_first()) =~= Seq::<(Seq<u8>, Seq<u8>)>::empty());
    assert(env_pairs(empty) =~= Seq::<(Seq<u8>, Seq<u8>)>::empty());
    assert(env_pairs(content) =~= seq![(k1, b), (k2, v)]);
}

/// Parses an env file into its key/value pairs, in file order; a later pair
/// under the same key overrides an earlier one when the pairs are applied.
pub fn read_key_value(content: &[u8]) -> (r: Vec<(Vec<u8>, Vec<u8>)>)
    ensures
        r@.map_values(|p: (Vec<u8>, Vec<u8>)| (p.0@, p.1@)) == env_pairs(content@),
{
    let lines = split(content, '\n' as u8);
    let ghost line_views = lines@.map_values(|v: Vec<u8>| v@);
    let mut out: Vec<(Vec<u8>, Vec<u8>)> = Vec::new();
    let mut i: usize = 0;
    proof {
        assert(out@.map_values(|p: (Vec<u8>, Vec<u8>)| (p.0@, p.1@)) =~= Seq::<(
            Seq<u8>,
            Seq<u8>,
        )>::empty());
        assert(line_views.take(0) =~= Seq::<Seq<u8>>::empty());
    }
    while i < lines.len()
        invariant
            i <= lines@.len(),
            line_views == lines@.map_values(|v: Vec<u8>| v@),
            out@.map_values(|p: (Vec<u8>, Vec<u8>)| (p.0@, p.1@)) == entries_of_lines(
                line_views.take(i as int),
            ),
        decreases lines@.len() - i,
    {
        let t = trim(lines[i].as_slice());
        let ghost tv = t@;
        let hash: bool = t.len() > 0 && t[0] == '#' as u8;
        if !hash {
            let eq_pos = crate::text::find_from(t.as_slice(), 0, '=' as u8);
            if eq_pos < t.len() {
                proof {
                    crate::text::lemma_first_sep_is(tv, '=' as u8, eq_pos as int);
                }
                let key = trim(vstd::slice::slice_subrange(t.as_slice(), 0, eq_pos));
                let value = trim(
                    vstd::slice::slice_subrange(t.as_slice(), eq_pos + 1, t.len()),
                );
                proof {
                    assert(tv.subrange(0, eq_pos as int) =~= tv.take(eq_pos as int));
                    assert(tv.subrange(eq_pos + 1, tv.len() as int) =~= tv.skip(eq_pos + 1));
                }
                out.push((key, value));
            } else {
                proof {
                    crate::text::lemma_first_sep_is(tv, '=' as u8, eq_pos as int);
                }
            }
        }
        proof {
            lemma_entries_append(line_views.take(i as int), line_views[i as int]);
            assert(line_views.take(i + 1) =~= line_views.take(i as int).push(
                line_views[i as int],
            ));
            assert(out@.map_values(|p: (Vec<u8>, Vec<u8>)| (p.0@, p.1@)) =~= entries_of_lines(
                line_views.take(i + 1),
            ));
        }
        i += 1;
    }
    proof {
        assert(line_views.take(i as int) =~= line_views);
    }
    out
}

} // verus!
