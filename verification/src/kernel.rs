//! Kernel supervision and installation: the supervisor's state machine, the
//! release-asset selection and integrity rules, and binary resolution over
//! the caller-reported filesystem facts.
//!
//! Everything that actually touches processes, the network or the filesystem
//! happens outside; this module owns the decisions and is verified against
//! the facts handed in.
use vstd::prelude::*;

use crate::codec::{gunzip, gunzip_of, sha256_hex, sha256_hex_of};
use crate::text::{
    append_slice, append_str, chars_eq_str, chars_to_string, contains_chars, contains_sub,
    eq_chars, ends_with, is_space, lex_sorted, lower_seq, starts_with, str_to_chars, sub_vec,
    to_lower, trim, trim_spec,
};
use crate::CoreError;

verus! {

/// Read-only snapshot of what is known about the kernel binary.
#[derive(Debug, Clone)]
pub struct KernelInfo {
    pub binary_path: Option<String>,
    pub version: Option<String>,
    pub suggested_path: String,
    pub status: String,
}

/// What a completed installation reports.
#[derive(Debug, Clone)]
pub struct KernelUpgradeInfo {
    pub version: String,
    pub binary_path: String,
    pub asset_name: String,
}

/// The supervisor's own bookkeeping: the pid of the one child it tracks.
#[derive(Debug)]
pub struct KernelSupervisor {
    child_pid: Option<u32>,
}

impl View for KernelSupervisor {
    type V = Option<u32>;

    closed spec fn view(&self) -> Option<u32> {
        self.child_pid
    }
}

impl KernelSupervisor {
    /// A supervisor tracking nothing.
    pub fn new() -> (r: KernelSupervisor)
        ensures
            r@ is None,
    {
        KernelSupervisor { child_pid: None }
    }

    /// Whether a start may proceed: it fails with `AlreadyRunning` exactly
    /// while a child is tracked, and never changes what is tracked.
    pub fn begin_start(&self) -> (r: Result<(), CoreError>)
        ensures
            r is Err <==> start_refused(self@),
            r matches Err(e) ==> e is AlreadyRunning,
    {
        if self.child_pid.is_some() {
            Err(CoreError::AlreadyRunning)
        } else {
            Ok(())
        }
    }

    /// Records the spawned child once it survived its grace period.
    pub fn record_started(&mut self, pid: u32)
        ensures
            final(self)@ == Some(pid),
    {
        self.child_pid = Some(pid);
    }

    /// Records that no child is tracked any more: a stop, or an observed
    /// exit.
    pub fn record_stopped(&mut self)
        ensures
            final(self)@ is None,
    {
        self.child_pid = None;
    }

    /// The tracked pid, if any.
    pub fn tracked_child(&self) -> (r: Option<u32>)
        ensures
            r == self@,
    {
        self.child_pid
    }

    /// Reconciles against the child's observed liveness: an exited child is
    /// treated as stopped.
    pub fn reconcile(&mut self, child_alive: bool) -> (r: bool)
        ensures
            r == (old(self)@ is Some && child_alive),
            r ==> final(self)@ == old(self)@,
            !r ==> final(self)@ is None,
    {
        if self.child_pid.is_some() && child_alive {
            true
        } else {
            self.child_pid = None;
            false
        }
    }
}

/// A start is refused exactly while a child is tracked.
pub open spec fn start_refused(v: Option<u32>) -> bool {
    v is Some
}

/// A second start without an intervening stop is refused and leaves exactly
/// one tracked child: a first start may proceed only from an unrefused
/// state, `record_started` makes the state `Some(pid)` — the one child — and
/// `begin_start` fails with `AlreadyRunning` exactly on such states.
pub proof fn lemma_start_twice(before_first: Option<u32>, pid: u32)
    requires
        !start_refused(before_first),
    ensures
        start_refused(Some(pid)),
        Some(pid) matches Some(p) && p == pid,
{
}

/// The version tag normalized: trimmed, and prefixed with `v` when the trim
/// is non-empty and lacks one.
pub open spec fn normalize_tag_spec(tag: Seq<char>) -> Seq<char> {
    let t = trim_spec(tag);
    if t.len() == 0 {
        Seq::empty()
    } else if t[0] == 'v' {
        t
    } else {
        seq!['v'] + t
    }
}

/// Normalizes a release tag to its `v`-prefixed form.
pub fn normalize_version_tag(tag: &str) -> (r: String)
    ensures
        r@ == normalize_tag_spec(tag@),
{
    let chars = str_to_chars(tag);
    let t = trim(chars.as_slice());
    if t.len() == 0 {
        String::new()
    } else if t[0] == 'v' {
        chars_to_string(t.as_slice())
    } else {
        let mut out: Vec<char> = Vec::new();
        out.push('v');
        append_slice(&mut out, t.as_slice());
        assert(out@ =~= seq!['v'] + trim_spec(tag@));
        chars_to_string(out.as_slice())
    }
}

/// One release asset as the release feed lists it.
#[derive(Debug, Clone)]
pub struct ReleaseAsset {
    pub name: String,
    pub download_url: String,
    pub digest: Option<String>,
}

/// Mathematical model of a [`ReleaseAsset`].
#[verifier::ext_equal]
pub struct ReleaseAssetView {
    pub name: Seq<char>,
    pub download_url: Seq<char>,
    pub digest: Option<Seq<char>>,
}

impl View for ReleaseAsset {
    type V = ReleaseAssetView;

    open spec fn view(&self) -> ReleaseAssetView {
        ReleaseAssetView {
            name: self.name@,
            download_url: self.download_url@,
            digest: match self.digest {
                Some(ref d) => Some(d@),
                None => None,
            },
        }
    }
}

impl DeepView for ReleaseAsset {
    type V = ReleaseAssetView;

    open spec fn deep_view(&self) -> ReleaseAssetView {
        self@
    }
}

/// The badness of an asset name: alpha builds, compatibility builds and
/// Go-runtime-tagged builds are deprioritized, then shorter names win.
pub open spec fn score_spec(name: Seq<char>) -> (int, int, int, int) {
    (
        if contains_sub(lower_seq(name), "alpha"@) {
            1int
        } else {
            0int
        },
        if contains_sub(lower_seq(name), "compatible"@) {
            1int
        } else {
            0int
        },
        if contains_sub(lower_seq(name), "-go"@) {
            1int
        } else {
            0int
        },
        name.len() as int,
    )
}

/// Strict lexicographic order on scores.
pub open spec fn score_lt(a: (int, int, int, int), b: (int, int, int, int)) -> bool {
    ||| a.0 < b.0
    ||| (a.0 == b.0 && a.1 < b.1)
    ||| (a.0 == b.0 && a.1 == b.1 && a.2 < b.2)
    ||| (a.0 == b.0 && a.1 == b.1 && a.2 == b.2 && a.3 < b.3)
}

/// Ranks an asset name for selection; smaller is better.
pub fn score_release_asset(name: &str) -> (r: (u8, u8, u8, usize))
    ensures
        (r.0 as int, r.1 as int, r.2 as int, r.3 as int) == score_spec(name@),
{
    let chars = str_to_chars(name);
    let lower = to_lower(chars.as_slice());
    let alpha = str_to_chars("alpha");
    let compatible = str_to_chars("compatible");
    let go = str_to_chars("-go");
    let a: u8 = if contains_chars(lower.as_slice(), alpha.as_slice()) {
        1
    } else {
        0
    };
    let c: u8 = if contains_chars(lower.as_slice(), compatible.as_slice()) {
        1
    } else {
        0
    };
    let g: u8 = if contains_chars(lower.as_slice(), go.as_slice()) {
        1
    } else {
        0
    };
    (a, c, g, chars.len())
}

fn score_lt_exec(a: (u8, u8, u8, usize), b: (u8, u8, u8, usize)) -> (r: bool)
    ensures
        r == score_lt(
            (a.0 as int, a.1 as int, a.2 as int, a.3 as int),
            (b.0 as int, b.1 as int, b.2 as int, b.3 as int),
        ),
{
    a.0 < b.0 || (a.0 == b.0 && a.1 < b.1) || (a.0 == b.0 && a.1 == b.1 && a.2 < b.2) || (a.0 == b.0
        && a.1 == b.1 && a.2 == b.2 && a.3 < b.3)
}

/// An asset this platform can install: prefixed `mihomo-{os}-{arch}-` and a
/// gzip archive.
pub open spec fn asset_matches(name: Seq<char>, prefix: Seq<char>) -> bool {
    prefix.is_prefix_of(name) && ".gz"@.is_suffix_of(lower_seq(name))
}

/// The platform prefix release assets carry.
pub open spec fn platform_prefix(os: Seq<char>, arch: Seq<char>) -> Seq<char> {
    "mihomo-"@ + os + "-"@ + arch + "-"@
}

fn build_platform_prefix(os: &str, arch: &str) -> (r: Vec<char>)
    ensures
        r@ == platform_prefix(os@, arch@),
{
    let mut p = str_to_chars("mihomo-");
    append_str(&mut p, os);
    append_str(&mut p, "-");
    append_str(&mut p, arch);
    append_str(&mut p, "-");
    p
}

/// Picks the release asset to install: among the assets matching the
/// platform prefix and archive suffix, one with the minimal score, the
/// earliest listed among equals.
pub fn select_release_asset(assets: &Vec<ReleaseAsset>, os: &str, arch: &str) -> (r: Option<usize>)
    ensures
        match r {
            Some(i) => {
                &&& i < assets@.len()
                &&& asset_matches(assets.deep_view()[i as int].name, platform_prefix(os@, arch@))
                &&& forall|j: int|
                    0 <= j < assets@.len() && asset_matches(
                        (#[trigger] assets.deep_view()[j]).name,
                        platform_prefix(os@, arch@),
                    ) ==> !score_lt(
                        score_spec(assets.deep_view()[j].name),
                        score_spec(assets.deep_view()[i as int].name),
                    )
                &&& forall|j: int|
                    0 <= j < i && asset_matches(
                        (#[trigger] assets.deep_view()[j]).name,
                        platform_prefix(os@, arch@),
                    ) ==> score_lt(
                        score_spec(assets.deep_view()[i as int].name),
                        score_spec(assets.deep_view()[j].name),
                    )
            },
            None => forall|j: int|
                0 <= j < assets@.len() ==> !asset_matches(
                    (#[trigger] assets.deep_view()[j]).name,
                    platform_prefix(os@, arch@),
                ),
        },
{
    let prefix = build_platform_prefix(os, arch);
    let suffix = str_to_chars(".gz");
    let n = assets.len();
    let mut best: Option<usize> = None;
    let mut best_score: (u8, u8, u8, usize) = (0, 0, 0, 0);
    for j in 0..n
        invariant
            n == assets@.len(),
            prefix@ == platform_prefix(os@, arch@),
            suffix@ == ".gz"@,
            match best {
                Some(i) => {
                    &&& i < j
                    &&& asset_matches(assets.deep_view()[i as int].name, prefix@)
                    &&& (best_score.0 as int, best_score.1 as int, best_score.2 as int, best_score.3 as int)
                        == score_spec(assets.deep_view()[i as int].name)
                    &&& forall|k: int|
                        0 <= k < j && asset_matches(
                            (#[trigger] assets.deep_view()[k]).name,
                            prefix@,
                        ) ==> !score_lt(
                            score_spec(assets.deep_view()[k].name),
                            score_spec(assets.deep_view()[i as int].name),
                        )
                    &&& forall|k: int|
                        0 <= k < i && asset_matches(
                            (#[trigger] assets.deep_view()[k]).name,
                            prefix@,
                        ) ==> score_lt(
                            score_spec(assets.deep_view()[i as int].name),
                            score_spec(assets.deep_view()[k].name),
                        )
                },
                None => forall|k: int|
                    0 <= k < j ==> !asset_matches((#[trigger] assets.deep_view()[k]).name, prefix@),
            },
    {
        proof {
            assert(assets.deep_view()[j as int] == assets@[j as int]@);
        }
        let name_chars = str_to_chars(assets[j].name.as_str());
        let lower = to_lower(name_chars.as_slice());
        let is_match = starts_with(name_chars.as_slice(), prefix.as_slice()) && ends_with(
            lower.as_slice(),
            suffix.as_slice(),
        );
        if is_match {
            let sc = score_release_asset(assets[j].name.as_str());
            match best {
                None => {
                    best = Some(j);
                    best_score = sc;
                },
                Some(i) => {
                    if score_lt_exec(sc, best_score) {
                        best = Some(j);
                        best_score = sc;
                    }
                },
            }
        }
    }
    best
}

/// The integrity rule for a downloaded asset: a missing or blank advertised
/// digest passes (best effort); otherwise the bytes' SHA-256 digest must
/// equal the advertised one, case-insensitively and with an optional
/// `sha256:` prefix.
pub open spec fn digest_expectation(digest: Option<Seq<char>>) -> Seq<char> {
    match digest {
        Some(d) => {
            let stripped = if "sha256:"@.is_prefix_of(d) {
                d.skip(7)
            } else {
                d
            };
            lower_seq(trim_spec(stripped))
        },
        None => Seq::empty(),
    }
}

/// Checks a downloaded asset against its advertised digest. Passes exactly
/// when no digest is advertised, the advertised digest is blank, or the
/// bytes hash to it; a mismatch is reported naming the asset.
pub fn verify_download_digest(asset: &ReleaseAsset, bytes: &[u8]) -> (r: Result<(), CoreError>)
    ensures
        r is Ok <==> (digest_expectation(asset@.digest).len() == 0 || digest_expectation(
            asset@.digest,
        ) == sha256_hex_of(bytes@)),
        r matches Err(e) ==> e matches CoreError::InvalidConfig(m) && m@
            == "downloaded kernel digest mismatch for `"@ + asset@.name + "`"@,
{
    let raw = match &asset.digest {
        Some(d) => d,
        None => {
            return Ok(());
        },
    };
    let dchars = str_to_chars(raw.as_str());
    let prefix = str_to_chars("sha256:");
    let stripped = if starts_with(dchars.as_slice(), prefix.as_slice()) {
        proof {
            reveal_strlit("sha256:");
        }
        sub_vec(dchars.as_slice(), 7, dchars.len())
    } else {
        proof {
            reveal_strlit("sha256:");
        }
        dchars
    };
    let trimmed = trim(stripped.as_slice());
    let expected = to_lower(trimmed.as_slice());
    if expected.len() == 0 {
        return Ok(());
    }
    let actual = sha256_hex(bytes);
    let actual_chars = str_to_chars(actual.as_str());
    if eq_chars(actual_chars.as_slice(), expected.as_slice()) {
        Ok(())
    } else {
        let mut msg = str_to_chars("downloaded kernel digest mismatch for `");
        append_str(&mut msg, asset.name.as_str());
        append_str(&mut msg, "`");
        Err(CoreError::InvalidConfig(chars_to_string(msg.as_slice())))
    }
}

/// Decompresses a downloaded archive. Succeeds exactly when the bytes are a
/// valid gzip stream with non-empty contents; each failure kind carries its
/// own message.
pub fn decompress_release(bytes: &[u8]) -> (r: Result<Vec<u8>, CoreError>)
    ensures
        match r {
            Ok(v) => gunzip_of(bytes@) == Some(v@) && v@.len() > 0,
            Err(e) => {
                &&& e matches CoreError::InvalidConfig(m) && (m@
                    == "downloaded kernel archive is corrupt"@ <==> gunzip_of(bytes@) is None)
                    && (m@ == "downloaded kernel archive is empty"@ <==> gunzip_of(bytes@)
                    == Some(Seq::<u8>::empty()))
                &&& (gunzip_of(bytes@) is None || gunzip_of(bytes@) == Some(Seq::<u8>::empty()))
            },
        },
{
    proof {
        // the two failure messages differ (already in length), so each iff
        // below pins exactly one of them
        reveal_strlit("downloaded kernel archive is corrupt");
        reveal_strlit("downloaded kernel archive is empty");
        assert(("downloaded kernel archive is corrupt"@).len() != (
        "downloaded kernel archive is empty"@).len());
    }
    match gunzip(bytes) {
        Some(out) => {
            if out.len() == 0 {
                assert(gunzip_of(bytes@) == Some(Seq::<u8>::empty())) by {
                    assert(out@ =~= Seq::<u8>::empty());
                }
                Err(CoreError::InvalidConfig("downloaded kernel archive is empty".to_owned()))
            } else {
                Ok(out)
            }
        },
        None => Err(CoreError::InvalidConfig("downloaded kernel archive is corrupt".to_owned())),
    }
}

} // verus!

verus! {

/// One asset name synthesized for the web fallback: the platform prefix, a
/// build-variant infix, the normalized tag and the archive suffix.
pub open spec fn candidate_name_spec(
    os: Seq<char>,
    arch: Seq<char>,
    variant: Seq<char>,
    tag: Seq<char>,
) -> Seq<char> {
    platform_prefix(os, arch) + variant + tag + ".gz"@
}

/// The build-variant infixes tried by the web fallback; x86-64 adds a
/// compatibility build.
pub open spec fn candidate_variants(arch: Seq<char>) -> Seq<Seq<char>> {
    let common = seq![
        ""@,
        "go124-"@,
        "go122-"@,
        "go120-"@,
        "v1-"@,
        "v2-"@,
        "v1-go124-"@,
        "v1-go122-"@,
        "v1-go120-"@,
        "v2-go124-"@,
        "v2-go122-"@,
        "v2-go120-"@,
    ];
    if arch == "amd64"@ {
        common + seq!["compatible-"@]
    } else {
        common
    }
}

fn push_variant(out: &mut Vec<Vec<char>>, os: &str, arch: &str, tag: &[char], variant: &str)
    ensures
        final(out).deep_view() == old(out).deep_view().push(
            candidate_name_spec(os@, arch@, variant@, tag@),
        ),
{
    let mut name = build_platform_prefix(os, arch);
    append_str(&mut name, variant);
    append_slice(&mut name, tag);
    append_str(&mut name, ".gz");
    proof {
        assert(name@ =~= candidate_name_spec(os@, arch@, variant@, tag@));
        assert(name.deep_view() =~= name@);
    }
    crate::text::push_deep(out, name);
}

/// The asset names the web fallback tries, sorted and without duplicates:
/// exactly the variant names for this platform and tag.
pub fn release_asset_name_candidates(os: &str, arch: &str, tag: &str) -> (r: Vec<String>)
    ensures
        lex_sorted(r.deep_view()),
        forall|i: int|
            0 <= i < r.deep_view().len() - 1 ==> #[trigger] r.deep_view()[i] != r.deep_view()[i
                + 1],
        forall|x: Seq<char>|
            r.deep_view().contains(x) <==> exists|v: int|
                0 <= v < candidate_variants(arch@).len() && x == candidate_name_spec(
                    os@,
                    arch@,
                    #[trigger] candidate_variants(arch@)[v],
                    normalize_tag_spec(tag@),
                ),
{
    broadcast use vstd::seq_lib::group_to_multiset_ensures;

    let ntag_s = normalize_version_tag(tag);
    let ntag = str_to_chars(ntag_s.as_str());
    let mut names: Vec<Vec<char>> = Vec::new();
    let ghost variants = candidate_variants(arch@);
    push_variant(&mut names, os, arch, ntag.as_slice(), "");
    push_variant(&mut names, os, arch, ntag.as_slice(), "go124-");
    push_variant(&mut names, os, arch, ntag.as_slice(), "go122-");
    push_variant(&mut names, os, arch, ntag.as_slice(), "go120-");
    push_variant(&mut names, os, arch, ntag.as_slice(), "v1-");
    push_variant(&mut names, os, arch, ntag.as_slice(), "v2-");
    push_variant(&mut names, os, arch, ntag.as_slice(), "v1-go124-");
    push_variant(&mut names, os, arch, ntag.as_slice(), "v1-go122-");
    push_variant(&mut names, os, arch, ntag.as_slice(), "v1-go120-");
    push_variant(&mut names, os, arch, ntag.as_slice(), "v2-go124-");
    push_variant(&mut names, os, arch, ntag.as_slice(), "v2-go122-");
    push_variant(&mut names, os, arch, ntag.as_slice(), "v2-go120-");
    if chars_eq_str(str_to_chars(arch).as_slice(), "amd64") {
        push_variant(&mut names, os, arch, ntag.as_slice(), "compatible-");
    }
    proof {
        assert(names.deep_view() =~= Seq::new(
            variants.len(),
            |v: int| candidate_name_spec(os@, arch@, variants[v], normalize_tag_spec(tag@)),
        ));
    }
    let ghost built = names.deep_view();
    let sorted = crate::text::sort_char_seqs(names);
    proof {
        assert forall|x: Seq<char>| sorted.deep_view().contains(x) == built.contains(x) by {
            assert(sorted.deep_view().to_multiset() == built.to_multiset());
            assert(sorted.deep_view().contains(x) <==> sorted.deep_view().to_multiset().count(x)
                > 0);
            assert(built.contains(x) <==> built.to_multiset().count(x) > 0);
        }
    }
    let unique = crate::text::dedup_adjacent(sorted);
    let mut out: Vec<String> = Vec::new();
    let n = unique.len();
    for i in 0..n
        invariant
            n == unique@.len(),
            out.deep_view() == unique.deep_view().subrange(0, i as int),
    {
        proof {
            crate::text::lemma_deep_elem(unique, i as int);
        }
        let s = chars_to_string(unique[i].as_slice());
        crate::text::push_deep(&mut out, s);
        assert(out.deep_view() =~= unique.deep_view().subrange(0, i + 1));
    }
    proof {
        assert(unique.deep_view().subrange(0, n as int) =~= unique.deep_view());
        assert(out.deep_view() == unique.deep_view());
        assert forall|x: Seq<char>|
            out.deep_view().contains(x) == (exists|v: int|
                0 <= v < candidate_variants(arch@).len() && x == candidate_name_spec(
                    os@,
                    arch@,
                    #[trigger] candidate_variants(arch@)[v],
                    normalize_tag_spec(tag@),
                )) by {
            if built.contains(x) {
                let w = choose|w: int| 0 <= w < built.len() && built[w] == x;
                assert(x == candidate_name_spec(
                    os@,
                    arch@,
                    candidate_variants(arch@)[w],
                    normalize_tag_spec(tag@),
                ));
            }
            if exists|v: int|
                0 <= v < candidate_variants(arch@).len() && x == candidate_name_spec(
                    os@,
                    arch@,
                    #[trigger] candidate_variants(arch@)[v],
                    normalize_tag_spec(tag@),
                ) {
                let v = choose|v: int|
                    0 <= v < candidate_variants(arch@).len() && x == candidate_name_spec(
                        os@,
                        arch@,
                        #[trigger] candidate_variants(arch@)[v],
                        normalize_tag_spec(tag@),
                    );
                assert(built[v] == x);
                assert(built.contains(x));
            }
        }
    }
    out
}

/// The two download URL shapes tried for one candidate asset name: the
/// tag-pinned release path and the latest-release path.
pub fn candidate_download_urls(tag: &str, asset_name: &str) -> (r: (String, String))
    ensures
        r.0@ == "https://github.com/MetaCubeX/mihomo/releases/download/"@ + tag@ + "/"@
            + asset_name@,
        r.1@ == "https://github.com/MetaCubeX/mihomo/releases/latest/download/"@ + asset_name@,
{
    let mut a = str_to_chars("https://github.com/MetaCubeX/mihomo/releases/download/");
    append_str(&mut a, tag);
    append_str(&mut a, "/");
    append_str(&mut a, asset_name);
    let mut b = str_to_chars("https://github.com/MetaCubeX/mihomo/releases/latest/download/");
    append_str(&mut b, asset_name);
    (chars_to_string(a.as_slice()), chars_to_string(b.as_slice()))
}

} // verus!

verus! {

/// One file found while scanning a directory for the kernel binary.
#[derive(Debug, Clone)]
pub struct DirEntry {
    pub name: String,
    pub path: String,
    pub executable: bool,
}

/// Mathematical model of a [`DirEntry`].
#[verifier::ext_equal]
pub struct DirEntryView {
    pub name: Seq<char>,
    pub path: Seq<char>,
    pub executable: bool,
}

impl View for DirEntry {
    type V = DirEntryView;

    open spec fn view(&self) -> DirEntryView {
        DirEntryView { name: self.name@, path: self.path@, executable: self.executable }
    }
}

impl DeepView for DirEntry {
    type V = DirEntryView;

    open spec fn deep_view(&self) -> DirEntryView {
        self@
    }
}

/// What the caller saw at a candidate path: nothing, a file with its execute
/// permission, or a directory with its files.
#[derive(Debug)]
pub enum FsNode {
    MissingNode,
    FileNode { executable: bool },
    DirNode { entries: Vec<DirEntry> },
}

/// One place the kernel binary may live, with what the filesystem shows
/// there.
#[derive(Debug)]
pub struct Candidate {
    pub path: String,
    pub node: FsNode,
}

/// A file name that names the kernel directly: the kernel name itself or
/// the kernel name followed by a separator.
pub open spec fn primary_name(name: Seq<char>) -> bool {
    let l = lower_seq(name);
    ||| l == "mihomo"@
    ||| "mihomo-"@.is_prefix_of(l)
    ||| "mihomo_"@.is_prefix_of(l)
    ||| "mihomo."@.is_prefix_of(l)
}

/// A file name that mentions the kernel at all.
pub open spec fn matching_name(name: Seq<char>) -> bool {
    contains_sub(lower_seq(name), "mihomo"@)
}

/// A directly-named kernel file also mentions the kernel.
pub proof fn lemma_primary_matches(name: Seq<char>)
    requires
        primary_name(name),
    ensures
        matching_name(name),
{
    reveal_strlit("mihomo");
    reveal_strlit("mihomo-");
    reveal_strlit("mihomo_");
    reveal_strlit("mihomo.");
    let l = lower_seq(name);
    if l == "mihomo"@ {
        assert(l.subrange(0, 6) =~= "mihomo"@);
        assert(crate::text::occurs_at(l, "mihomo"@, 0));
    } else if "mihomo-"@.is_prefix_of(l) {
        assert(l.subrange(0, 6) =~= "mihomo"@) by {
            assert(l.subrange(0, 7) == "mihomo-"@);
            assert(forall|k: int| 0 <= k < 7 ==> l[k] == "mihomo-"@[k]);
        }
        assert(crate::text::occurs_at(l, "mihomo"@, 0));
    } else if "mihomo_"@.is_prefix_of(l) {
        assert(l.subrange(0, 6) =~= "mihomo"@) by {
            assert(l.subrange(0, 7) == "mihomo_"@);
            assert(forall|k: int| 0 <= k < 7 ==> l[k] == "mihomo_"@[k]);
        }
        assert(crate::text::occurs_at(l, "mihomo"@, 0));
    } else {
        assert(l.subrange(0, 6) =~= "mihomo"@) by {
            assert(l.subrange(0, 7) == "mihomo."@);
            assert(forall|k: int| 0 <= k < 7 ==> l[k] == "mihomo."@[k]);
        }
        assert(crate::text::occurs_at(l, "mihomo"@, 0));
    }
}

fn primary_name_exec(name: &[char]) -> (r: bool)
    ensures
        r == primary_name(name@),
{
    let l = to_lower(name);
    chars_eq_str(l.as_slice(), "mihomo") || starts_with(
        l.as_slice(),
        str_to_chars("mihomo-").as_slice(),
    ) || starts_with(l.as_slice(), str_to_chars("mihomo_").as_slice()) || starts_with(
        l.as_slice(),
        str_to_chars("mihomo.").as_slice(),
    )
}

fn matching_name_exec(name: &[char]) -> (r: bool)
    ensures
        r == matching_name(name@),
{
    let l = to_lower(name);
    contains_chars(l.as_slice(), str_to_chars("mihomo").as_slice())
}

/// Picks the kernel binary inside one directory: a directly-named executable
/// with the lexically least name wins; failing that, any executable whose
/// name mentions the kernel, again by least name. When nothing executable
/// matches, every matching file is recorded as found-but-not-executable.
pub fn find_kernel_binary_in_dir(entries: &Vec<DirEntry>, non_exec: &mut Vec<String>) -> (r: Option<
    String,
>)
    ensures
        old(non_exec).deep_view().is_prefix_of(final(non_exec).deep_view()),
        r is Some ==> final(non_exec)@ == old(non_exec)@,
        match r {
            Some(p) => exists|e: int|
                {
                    &&& 0 <= e < entries@.len()
                    &&& (#[trigger] entries.deep_view()[e]).executable
                    &&& matching_name(entries.deep_view()[e].name)
                    &&& p@ == entries.deep_view()[e].path
                    &&& (primary_name(entries.deep_view()[e].name) || forall|j: int|
                        0 <= j < entries@.len() && primary_name(
                            (#[trigger] entries.deep_view()[j]).name,
                        ) ==> !entries.deep_view()[j].executable)
                    &&& forall|j: int|
                        0 <= j < entries@.len() && (#[trigger] entries.deep_view()[j]).executable
                            && matching_name(entries.deep_view()[j].name) && (primary_name(
                            entries.deep_view()[j].name,
                        ) == primary_name(entries.deep_view()[e].name)) ==> crate::text::lex_le(
                            entries.deep_view()[e].name,
                            entries.deep_view()[j].name,
                        )
                },
            None => {
                &&& forall|j: int|
                    0 <= j < entries@.len() && matching_name(
                        (#[trigger] entries.deep_view()[j]).name,
                    ) ==> !entries.deep_view()[j].executable
                &&& final(non_exec).deep_view() == old(non_exec).deep_view() + dir_matching_paths(
                    entries.deep_view(),
                )
            },
        },
{
    let n = entries.len();
    let mut best: Option<usize> = None;
    let mut best_primary = false;
    for i in 0..n
        invariant
            n == entries@.len(),
            match best {
                Some(w) => {
                    &&& w < i
                    &&& entries.deep_view()[w as int].executable
                    &&& matching_name(entries.deep_view()[w as int].name)
                    &&& best_primary == primary_name(entries.deep_view()[w as int].name)
                    &&& (best_primary || forall|j: int|
                        0 <= j < i && primary_name((#[trigger] entries.deep_view()[j]).name)
                            ==> !entries.deep_view()[j].executable)
                    &&& forall|j: int|
                        0 <= j < i && (#[trigger] entries.deep_view()[j]).executable
                            && matching_name(entries.deep_view()[j].name) && (primary_name(
                            entries.deep_view()[j].name,
                        ) == best_primary) ==> crate::text::lex_le(
                            entries.deep_view()[w as int].name,
                            entries.deep_view()[j].name,
                        )
                },
                None => forall|j: int|
                    0 <= j < i && matching_name((#[trigger] entries.deep_view()[j]).name)
                        ==> !entries.deep_view()[j].executable,
            },
            non_exec@ == old(non_exec)@,
    {
        proof {
            assert(entries.deep_view()[i as int] == entries@[i as int]@);
            if primary_name(entries.deep_view()[i as int].name) {
                lemma_primary_matches(entries.deep_view()[i as int].name);
            }
        }
        if entries[i].executable {
            let name_chars = str_to_chars(entries[i].name.as_str());
            let is_primary = primary_name_exec(name_chars.as_slice());
            let is_match = matching_name_exec(name_chars.as_slice());
            if is_match {
                match best {
                    None => {
                        proof {
                            if !is_primary {
                                assert forall|j: int|
                                    0 <= j < i && primary_name(
                                        (#[trigger] entries.deep_view()[j]).name,
                                    ) implies !entries.deep_view()[j].executable by {
                                    lemma_primary_matches(entries.deep_view()[j].name);
                                }
                            }
                        }
                        proof {
                            crate::text::lemma_lex_le_refl(entries.deep_view()[i as int].name);
                        }
                        best = Some(i);
                        best_primary = is_primary;
                    },
                    Some(w) => {
                        let best_name = str_to_chars(entries[w].name.as_str());
                        proof {
                            assert(entries.deep_view()[w as int] == entries@[w as int]@);
                            crate::text::lemma_lex_le_refl(entries.deep_view()[i as int].name);
                            crate::text::lemma_lex_le_refl(entries.deep_view()[w as int].name);
                        }
                        if is_primary && !best_primary {
                            best = Some(i);
                            best_primary = true;
                        } else if is_primary == best_primary && crate::text::chars_le(
                            name_chars.as_slice(),
                            best_name.as_slice(),
                        ) && !crate::text::eq_chars(name_chars.as_slice(), best_name.as_slice()) {
                            proof {
                                assert forall|j: int|
                                    0 <= j < i && (#[trigger] entries.deep_view()[j]).executable
                                        && matching_name(entries.deep_view()[j].name) && (
                                    primary_name(entries.deep_view()[j].name) == best_primary)
                                        implies crate::text::lex_le(
                                    entries.deep_view()[i as int].name,
                                    entries.deep_view()[j].name,
                                ) by {
                                    crate::text::lemma_lex_le_trans(
                                        entries.deep_view()[i as int].name,
                                        entries.deep_view()[w as int].name,
                                        entries.deep_view()[j].name,
                                    );
                                }
                            }
                            best = Some(i);
                        } else {
                            proof {
                                if is_primary == best_primary {
                                    crate::text::lemma_lex_le_total(
                                        entries.deep_view()[w as int].name,
                                        entries.deep_view()[i as int].name,
                                    );
                                    if entries.deep_view()[i as int].name
                                        == entries.deep_view()[w as int].name {
                                    }
                                }
                            }
                        }
                    },
                }
            }
        }
    }
    match best {
        Some(w) => {
            proof {
                assert(non_exec.deep_view() =~= old(non_exec).deep_view());
                assert(old(non_exec).deep_view().is_prefix_of(non_exec.deep_view())) by {
                    assert(non_exec.deep_view().subrange(
                        0,
                        old(non_exec).deep_view().len() as int,
                    ) =~= non_exec.deep_view());
                }
                assert(entries.deep_view()[w as int] == entries@[w as int]@);
            }
            Some(entries[w].path.clone())
        },
        None => {
            let ghost base = old(non_exec).deep_view();
            let ghost es = entries.deep_view();
            proof {
                assert(es.skip(0) =~= es);
            }
            for i in 0..n
                invariant
                    n == entries@.len(),
                    es == entries.deep_view(),
                    base == old(non_exec).deep_view(),
                    forall|j: int|
                        0 <= j < entries@.len() && matching_name(
                            (#[trigger] entries.deep_view()[j]).name,
                        ) ==> !entries.deep_view()[j].executable,
                    base + dir_matching_paths(es) =~= non_exec.deep_view() + dir_matching_paths(
                        es.skip(i as int),
                    ),
            {
                let ghost rest = es.skip(i as int);
                proof {
                    assert(entries.deep_view()[i as int] == entries@[i as int]@);
                    assert(rest[0] == es[i as int]);
                    assert(rest.drop_first() =~= es.skip(i + 1));
                }
                let name_chars = str_to_chars(entries[i].name.as_str());
                if matching_name_exec(name_chars.as_slice()) {
                    crate::text::push_deep(non_exec, entries[i].path.clone());
                }
                assert(base + dir_matching_paths(es) =~= non_exec.deep_view()
                    + dir_matching_paths(es.skip(i + 1)));
            }
            proof {
                assert(dir_matching_paths(es.skip(n as int)) =~= Seq::<Seq<char>>::empty());
                assert(non_exec.deep_view() =~= base + dir_matching_paths(es));
                assert(base.is_prefix_of(non_exec.deep_view())) by {
                    assert(non_exec.deep_view().subrange(0, base.len() as int) =~= base);
                }
            }
            None
        },
    }
}

/// The paths of the directory's files whose names mention the kernel, in
/// directory order.
pub open spec fn dir_matching_paths(es: Seq<DirEntryView>) -> Seq<Seq<char>>
    decreases es.len(),
{
    if es.len() == 0 {
        Seq::empty()
    } else {
        let rest = dir_matching_paths(es.drop_first());
        if matching_name(es[0].name) {
            seq![es[0].path] + rest
        } else {
            rest
        }
    }
}

} // verus!

verus! {

/// Mathematical model of an [`FsNode`].
pub enum FsNodeView {
    MissingView,
    FileView { executable: bool },
    DirView { entries: Seq<DirEntryView> },
}

/// Mathematical model of a [`Candidate`].
#[verifier::ext_equal]
pub struct CandidateView {
    pub path: Seq<char>,
    pub node: FsNodeView,
}

impl View for FsNode {
    type V = FsNodeView;

    open spec fn view(&self) -> FsNodeView {
        match self {
            FsNode::MissingNode => FsNodeView::MissingView,
            FsNode::FileNode { executable } => FsNodeView::FileView { executable: *executable },
            FsNode::DirNode { entries } => FsNodeView::DirView { entries: entries.deep_view() },
        }
    }
}

impl View for Candidate {
    type V = CandidateView;

    open spec fn view(&self) -> CandidateView {
        CandidateView { path: self.path@, node: self.node@ }
    }
}

impl DeepView for Candidate {
    type V = CandidateView;

    open spec fn deep_view(&self) -> CandidateView {
        self@
    }
}

/// A candidate holds a usable kernel binary.
pub open spec fn has_executable_match(c: CandidateView) -> bool {
    match c.node {
        FsNodeView::MissingView => false,
        FsNodeView::FileView { executable } => executable,
        FsNodeView::DirView { entries } => exists|e: int|
            0 <= e < entries.len() && (#[trigger] entries[e]).executable && matching_name(
                entries[e].name,
            ),
    }
}

/// The path `p` is one a candidate can resolve to.
pub open spec fn candidate_yields(c: CandidateView, p: Seq<char>) -> bool {
    match c.node {
        FsNodeView::MissingView => false,
        FsNodeView::FileView { executable } => executable && p == c.path,
        FsNodeView::DirView { entries } => exists|e: int|
            0 <= e < entries.len() && (#[trigger] entries[e]).executable && matching_name(
                entries[e].name,
            ) && p == entries[e].path,
    }
}

/// What one failed candidate records as found-but-not-executable.
pub open spec fn candidate_non_exec(c: CandidateView) -> Seq<Seq<char>> {
    match c.node {
        FsNodeView::MissingView => Seq::empty(),
        FsNodeView::FileView { executable } => if executable {
            Seq::empty()
        } else {
            seq![c.path]
        },
        FsNodeView::DirView { entries } => dir_matching_paths(entries),
    }
}

/// Everything a fully failed resolution records, in search order.
pub open spec fn all_non_exec(cs: Seq<CandidateView>) -> Seq<Seq<char>>
    decreases cs.len(),
{
    if cs.len() == 0 {
        Seq::empty()
    } else {
        candidate_non_exec(cs[0]) + all_non_exec(cs.drop_first())
    }
}

/// The paths a resolution checked, in search order.
pub open spec fn checked_paths(cs: Seq<CandidateView>) -> Seq<Seq<char>> {
    Seq::new(cs.len(), |i: int| cs[i].path)
}

/// The message a fully failed resolution reports: the suggested install
/// path, every checked path, and every match that lacked execute permission.
pub open spec fn resolve_failure_message_spec(
    hint: Seq<char>,
    checked: Seq<Seq<char>>,
    non_exec: Seq<Seq<char>>,
) -> Seq<char> {
    let base = "mihomo binary not found. Set `LINKPAD_MIHOMO_PATH`, or place it at `"@ + hint
        + "`. checked: "@ + crate::text::join_spec(checked, ", "@);
    if non_exec.len() == 0 {
        base
    } else {
        base + ". found but not executable: "@ + crate::text::join_spec(non_exec, ", "@)
            + ". run `chmod +x <path>`"@
    }
}

/// Resolves a usable kernel binary from the ordered candidate list the
/// caller assembled (the explicit override first, then the well-known
/// locations, then the search-path hit). Fails exactly when no candidate
/// holds an executable match, and then reports every checked path and every
/// match found without execute permission.
pub fn resolve_kernel_binary(candidates: &Vec<Candidate>, hint_path: &str) -> (r: Result<
    String,
    CoreError,
>)
    ensures
        match r {
            Ok(p) => exists|i: int|
                {
                    &&& 0 <= i < candidates@.len()
                    &&& candidate_yields(#[trigger] candidates.deep_view()[i], p@)
                    &&& forall|j: int|
                        0 <= j < i ==> !has_executable_match(#[trigger] candidates.deep_view()[j])
                },
            Err(e) => {
                &&& forall|i: int|
                    0 <= i < candidates@.len() ==> !has_executable_match(
                        #[trigger] candidates.deep_view()[i],
                    )
                &&& e matches CoreError::InvalidConfig(m) && m@ == resolve_failure_message_spec(
                    hint_path@,
                    checked_paths(candidates.deep_view()),
                    all_non_exec(candidates.deep_view()),
                )
            },
        },
{
    let ghost cs = candidates.deep_view();
    let mut non_exec: Vec<String> = Vec::new();
    let mut checked: Vec<String> = Vec::new();
    let n = candidates.len();
    proof {
        assert(cs.skip(0) =~= cs);
    }
    for i in 0..n
        invariant
            n == candidates@.len(),
            cs == candidates.deep_view(),
            forall|j: int| 0 <= j < i ==> !has_executable_match(#[trigger] cs[j]),
            all_non_exec(cs) =~= non_exec.deep_view() + all_non_exec(cs.skip(i as int)),
            checked.deep_view() =~= checked_paths(cs).subrange(0, i as int),
    {
        let ghost rest = cs.skip(i as int);
        proof {
            assert(candidates.deep_view()[i as int] == candidates@[i as int]@);
            assert(rest[0] == cs[i as int]);
            assert(rest.drop_first() =~= cs.skip(i + 1));
        }
        let c = &candidates[i];
        match &c.node {
            FsNode::MissingNode => {},
            FsNode::FileNode { executable } => {
                if *executable {
                    assert(candidate_yields(cs[i as int], c.path@));
                    return Ok(c.path.clone());
                }
                crate::text::push_deep(&mut non_exec, c.path.clone());
            },
            FsNode::DirNode { entries } => {
                match find_kernel_binary_in_dir(entries, &mut non_exec) {
                    Some(p) => {
                        proof {
                            assert(candidate_yields(cs[i as int], p@));
                        }
                        return Ok(p);
                    },
                    None => {},
                }
            },
        }
        crate::text::push_deep(&mut checked, c.path.clone());
        proof {
            assert(all_non_exec(cs) =~= non_exec.deep_view() + all_non_exec(cs.skip(i + 1)));
            assert(checked.deep_view() =~= checked_paths(cs).subrange(0, i + 1));
        }
    }
    proof {
        assert(all_non_exec(cs.skip(n as int)) =~= Seq::<Seq<char>>::empty());
        assert(non_exec.deep_view() =~= all_non_exec(cs));
        assert(checked.deep_view() =~= checked_paths(cs));
    }
    let mut msg = str_to_chars("mihomo binary not found. Set `LINKPAD_MIHOMO_PATH`, or place it at `");
    append_str(&mut msg, hint_path);
    append_str(&mut msg, "`. checked: ");
    let sep = str_to_chars(", ");
    let mut checked_seqs: Vec<Vec<char>> = Vec::new();
    let cn = checked.len();
    for i in 0..cn
        invariant
            cn == checked@.len(),
            checked_seqs.deep_view() == checked.deep_view().subrange(0, i as int),
    {
        proof {
            assert(checked.deep_view()[i as int] == checked@[i as int]@);
        }
        let cc = str_to_chars(checked[i].as_str());
        proof {
            assert(cc.deep_view() =~= cc@);
        }
        crate::text::push_deep(&mut checked_seqs, cc);
        assert(checked_seqs.deep_view() =~= checked.deep_view().subrange(0, i + 1));
    }
    proof {
        assert(checked.deep_view().subrange(0, cn as int) =~= checked.deep_view());
    }
    let joined_checked = crate::text::join_chars(&checked_seqs, sep.as_slice());
    append_slice(&mut msg, joined_checked.as_slice());
    if non_exec.len() > 0 {
        append_str(&mut msg, ". found but not executable: ");
        let mut ne_seqs: Vec<Vec<char>> = Vec::new();
        let nn = non_exec.len();
        for i in 0..nn
            invariant
                nn == non_exec@.len(),
                ne_seqs.deep_view() == non_exec.deep_view().subrange(0, i as int),
        {
            proof {
                assert(non_exec.deep_view()[i as int] == non_exec@[i as int]@);
            }
            let cc = str_to_chars(non_exec[i].as_str());
            proof {
                assert(cc.deep_view() =~= cc@);
            }
            crate::text::push_deep(&mut ne_seqs, cc);
            assert(ne_seqs.deep_view() =~= non_exec.deep_view().subrange(0, i + 1));
        }
        proof {
            assert(non_exec.deep_view().subrange(0, nn as int) =~= non_exec.deep_view());
        }
        let joined_ne = crate::text::join_chars(&ne_seqs, sep.as_slice());
        append_slice(&mut msg, joined_ne.as_slice());
        append_str(&mut msg, ". run `chmod +x <path>`");
    }
    proof {
        assert(msg@ =~= resolve_failure_message_spec(
            hint_path@,
            checked_paths(cs),
            all_non_exec(cs),
        ));
    }
    Err(CoreError::InvalidConfig(chars_to_string(msg.as_slice())))
}

/// A failed resolution's message names every match that lacked execute
/// permission, after the marker naming them as found but not executable.
pub proof fn lemma_failure_names_non_executable(
    hint: Seq<char>,
    checked: Seq<Seq<char>>,
    non_exec: Seq<Seq<char>>,
    i: int,
)
    requires
        0 <= i < non_exec.len(),
    ensures
        contains_sub(resolve_failure_message_spec(hint, checked, non_exec), non_exec[i]),
        contains_sub(
            resolve_failure_message_spec(hint, checked, non_exec),
            ". found but not executable: "@,
        ),
{
    let base = "mihomo binary not found. Set `LINKPAD_MIHOMO_PATH`, or place it at `"@ + hint
        + "`. checked: "@ + crate::text::join_spec(checked, ", "@);
    let msg = resolve_failure_message_spec(hint, checked, non_exec);
    let marker = ". found but not executable: "@;
    let joined = crate::text::join_spec(non_exec, ", "@);
    assert(msg =~= (base + marker) + (joined + ". run `chmod +x <path>`"@));
    crate::text::lemma_join_contains(non_exec, ", "@, i);
    let k = choose|k: int|
        #![trigger joined.subrange(k, k + non_exec[i].len() as int)]
        crate::text::occurs_at(joined, non_exec[i], k);
    crate::text::lemma_occurs_shift(base + marker, joined, non_exec[i], k);
    assert(crate::text::occurs_at(msg, non_exec[i], (base + marker).len() + k)) by {
        assert((base + marker) + joined =~= msg.subrange(0, (base + marker + joined).len() as int));
        assert(msg.subrange(
            (base + marker).len() + k,
            (base + marker).len() + k + non_exec[i].len() as int,
        ) =~= ((base + marker) + joined).subrange(
            (base + marker).len() + k,
            (base + marker).len() + k + non_exec[i].len() as int,
        ));
        assert(crate::text::occurs_at((base + marker) + joined, non_exec[i], (base + marker).len() + k));
    }
    assert(crate::text::occurs_at(msg, marker, base.len() as int)) by {
        assert(msg.subrange(base.len() as int, base.len() + marker.len() as int) =~= marker);
    }
}

} // verus!

verus! {

/// A token boundary in version output.
pub open spec fn is_vdelim(c: char) -> bool {
    is_space(c) || c == ',' || c == ';' || c == '(' || c == ')'
}

/// Quote-like characters stripped from a token's ends.
pub open spec fn is_quotechar(c: char) -> bool {
    c == '"' || c == '\'' || c == '[' || c == ']'
}

fn is_vdelim_exec(c: char) -> (r: bool)
    ensures
        r == is_vdelim(c),
{
    crate::text::is_space_char(c) || c == ',' || c == ';' || c == '(' || c == ')'
}

fn is_quotechar_exec(c: char) -> (r: bool)
    ensures
        r == is_quotechar(c),
{
    c == '"' || c == '\'' || c == '[' || c == ']'
}

/// Index of the first token boundary, or `s.len()` when none.
pub open spec fn first_vdelim_idx(s: Seq<char>) -> int
    decreases s.len(),
{
    if s.len() == 0 {
        0
    } else if is_vdelim(s[0]) {
        0
    } else {
        1 + first_vdelim_idx(s.drop_first())
    }
}

pub proof fn lemma_first_vdelim(s: Seq<char>)
    ensures
        0 <= first_vdelim_idx(s) <= s.len(),
        forall|j: int| 0 <= j < first_vdelim_idx(s) ==> !is_vdelim(s[j]),
        first_vdelim_idx(s) < s.len() ==> is_vdelim(s[first_vdelim_idx(s)]),
    decreases s.len(),
{
    if s.len() > 0 && !is_vdelim(s[0]) {
        lemma_first_vdelim(s.drop_first());
        assert(forall|j: int| 1 <= j < s.len() ==> s[j] == s.drop_first()[j - 1]);
    }
}

/// The delimiter-separated tokens of version output.
pub open spec fn split_vtokens(s: Seq<char>) -> Seq<Seq<char>>
    decreases s.len(),
{
    if s.len() == 0 {
        Seq::empty()
    } else if is_vdelim(s[0]) {
        split_vtokens(s.drop_first())
    } else {
        let i = first_vdelim_idx(s);
        if 1 <= i <= s.len() {
            seq![s.subrange(0, i)] + split_vtokens(s.subrange(i, s.len() as int))
        } else {
            seq![s]
        }
    }
}

fn split_vtokens_exec(v: &[char]) -> (r: Vec<Vec<char>>)
    ensures
        r.deep_view() == split_vtokens(v@),
{
    let mut r: Vec<Vec<char>> = Vec::new();
    let n = v.len();
    let mut pos: usize = 0;
    assert(v@.subrange(0, n as int) =~= v@);
    while pos < n
        invariant
            pos <= n,
            n == v@.len(),
            split_vtokens(v@) == r.deep_view() + split_vtokens(v@.subrange(pos as int, n as int)),
        decreases n - pos,
    {
        let ghost rest = v@.subrange(pos as int, n as int);
        if is_vdelim_exec(v[pos]) {
            proof {
                assert(rest.drop_first() =~= v@.subrange(pos + 1, n as int));
            }
            pos = pos + 1;
        } else {
            let mut j = pos + 1;
            while j < n && !is_vdelim_exec(v[j])
                invariant
                    pos < j <= n,
                    n == v@.len(),
                    forall|k: int| pos <= k < j ==> !is_vdelim(v@[k]),
                decreases n - j,
            {
                j = j + 1;
            }
            proof {
                lemma_first_vdelim(rest);
                let f = first_vdelim_idx(rest);
                assert(forall|k: int| 0 <= k < j - pos ==> rest[k] == v@[pos + k]);
                if f < j - pos {
                    assert(is_vdelim(rest[f]));
                }
                if f > j - pos {
                    assert(j < n) by {
                        if j == n {
                            assert(f <= rest.len());
                        }
                    }
                    assert(rest[j - pos] == v@[j as int]);
                    assert(!is_vdelim(rest[j - pos]));
                    assert(is_vdelim(v@[j as int]));
                }
                assert(f == j - pos);
                assert(rest.subrange(0, f) =~= v@.subrange(pos as int, j as int));
                assert(rest.subrange(f, rest.len() as int) =~= v@.subrange(j as int, n as int));
            }
            let token = sub_vec(v, pos, j);
            crate::text::push_deep(&mut r, token);
            proof {
                assert(r.deep_view().last() =~= v@.subrange(pos as int, j as int));
                assert(split_vtokens(v@) =~~= r.deep_view() + split_vtokens(
                    v@.subrange(j as int, n as int),
                ));
            }
            pos = j;
        }
    }
    assert(split_vtokens(v@.subrange(n as int, n as int)) =~= Seq::<Seq<char>>::empty());
    assert(r.deep_view() =~~= split_vtokens(v@));
    r
}

/// What remains after leading quote-like characters are dropped.
pub open spec fn trim_quotes_start(s: Seq<char>) -> Seq<char>
    decreases s.len(),
{
    if s.len() > 0 && is_quotechar(s[0]) {
        trim_quotes_start(s.drop_first())
    } else {
        s
    }
}

/// What remains after trailing quote-like characters are dropped.
pub open spec fn trim_quotes_end(s: Seq<char>) -> Seq<char>
    decreases s.len(),
{
    if s.len() > 0 && is_quotechar(s.last()) {
        trim_quotes_end(s.drop_last())
    } else {
        s
    }
}

/// A token with quote-like characters dropped from both ends.
pub open spec fn trim_quotes(s: Seq<char>) -> Seq<char> {
    trim_quotes_end(trim_quotes_start(s))
}

fn trim_quotes_exec(v: &[char]) -> (r: Vec<char>)
    ensures
        r@ == trim_quotes(v@),
{
    let n = v.len();
    let mut lo: usize = 0;
    let mut hi: usize = n;
    assert(v@.subrange(0, n as int) =~= v@);
    while lo < hi && is_quotechar_exec(v[lo])
        invariant
            0 <= lo <= hi <= n,
            hi == n == v@.len(),
            trim_quotes_start(v@) == trim_quotes_start(v@.subrange(lo as int, hi as int)),
        decreases hi - lo,
    {
        proof {
            let cur = v@.subrange(lo as int, hi as int);
            assert(cur.drop_first() =~= v@.subrange(lo + 1, hi as int));
        }
        lo = lo + 1;
    }
    proof {
        let cur = v@.subrange(lo as int, hi as int);
        assert(trim_quotes_start(cur) == cur);
    }
    while lo < hi && is_quotechar_exec(v[hi - 1])
        invariant
            0 <= lo <= hi <= n,
            n == v@.len(),
            trim_quotes(v@) == trim_quotes_end(v@.subrange(lo as int, hi as int)),
        decreases hi,
    {
        proof {
            let cur = v@.subrange(lo as int, hi as int);
            assert(cur.drop_last() =~= v@.subrange(lo as int, hi - 1));
        }
        hi = hi - 1;
    }
    proof {
        let cur = v@.subrange(lo as int, hi as int);
        assert(trim_quotes_end(cur) == cur);
    }
    sub_vec(v, lo, hi)
}

/// A version-shaped token: after quote-trimming, at least two characters, a
/// leading `v` and a digit after it.
pub open spec fn vtoken_good(t: Seq<char>) -> bool {
    let q = trim_quotes(t);
    q.len() >= 2 && q[0] == 'v' && crate::text::is_digit(q[1])
}

/// The quote-trimmed form of the first version-shaped token, if any.
pub open spec fn first_good_vtoken(toks: Seq<Seq<char>>) -> Option<Seq<char>>
    decreases toks.len(),
{
    if toks.len() == 0 {
        None
    } else if vtoken_good(toks[0]) {
        Some(trim_quotes(toks[0]))
    } else {
        first_good_vtoken(toks.drop_first())
    }
}

/// The version token free-form text carries, if any.
pub open spec fn version_token_of(s: Seq<char>) -> Option<Seq<char>> {
    first_good_vtoken(split_vtokens(s))
}

/// Finds the version in free-form text: exactly the first whitespace- or
/// punctuation-delimited token that, with quote-like characters trimmed,
/// starts with `v` followed by a digit.
pub fn extract_version_from_text(input: &str) -> (r: Option<String>)
    ensures
        match r {
            Some(t) => version_token_of(input@) == Some(t@),
            None => version_token_of(input@) is None,
        },
{
    let chars = str_to_chars(input);
    let tokens = split_vtokens_exec(chars.as_slice());
    let n = tokens.len();
    let ghost toks = tokens.deep_view();
    proof {
        assert(toks.skip(0) =~= toks);
    }
    for i in 0..n
        invariant
            n == tokens@.len(),
            toks == tokens.deep_view(),
            version_token_of(input@) == first_good_vtoken(toks.skip(i as int)),
        decreases n - i,
    {
        let ghost rest = toks.skip(i as int);
        proof {
            assert(rest[0] == toks[i as int]);
            assert(rest.drop_first() =~= toks.skip(i + 1));
            assert(tokens.deep_view()[i as int] == tokens@[i as int]@);
        }
        let q = trim_quotes_exec(tokens[i].as_slice());
        if q.len() >= 2 && q[0] == 'v' && '0' <= q[1] && q[1] <= '9' {
            return Some(chars_to_string(q.as_slice()));
        }
    }
    proof {
        assert(first_good_vtoken(toks.skip(n as int)) is None);
    }
    None
}

/// One line of a process listing read as `pid command`: the leading decimal
/// token and the rest of the line.
pub open spec fn ps_line_pid(line: Seq<char>) -> Option<(int, Seq<char>)> {
    let t = crate::text::trim_start_spec(line);
    let i = crate::text::first_space_idx(t);
    if 0 < i < t.len() && crate::text::is_dec_seq(t.subrange(0, i)) && crate::text::dec_val(
        t.subrange(0, i),
    ) <= u32::MAX {
        Some((crate::text::dec_val(t.subrange(0, i)), t.subrange(i + 1, t.len() as int)))
    } else {
        None
    }
}

/// A process-listing line that belongs to this runtime's kernel: its command
/// mentions the kernel and both the runtime directory and the config path.
pub open spec fn ps_line_is_managed(
    line: Seq<char>,
    runtime_marker: Seq<char>,
    config_marker: Seq<char>,
) -> bool {
    match ps_line_pid(line) {
        Some(pc) => {
            let cmd = crate::text::trim_spec(pc.1);
            &&& contains_sub(cmd, "mihomo"@)
            &&& contains_sub(cmd, runtime_marker)
            &&& contains_sub(cmd, config_marker)
        },
        None => false,
    }
}

/// The pids of this runtime's kernel processes found in a process listing.
pub open spec fn managed_pids_spec(
    lines: Seq<Seq<char>>,
    runtime_marker: Seq<char>,
    config_marker: Seq<char>,
) -> Seq<int>
    decreases lines.len(),
{
    if lines.len() == 0 {
        Seq::empty()
    } else {
        let rest = managed_pids_spec(lines.drop_first(), runtime_marker, config_marker);
        if ps_line_is_managed(lines[0], runtime_marker, config_marker) {
            seq![(ps_line_pid(lines[0])->0).0] + rest
        } else {
            rest
        }
    }
}

/// Scans `ps` output for kernel processes bound to this runtime directory
/// and config path, to reclaim stale instances without touching unrelated
/// processes that happen to share a pid.
pub fn list_runtime_kernel_pids(output: &str, runtime_marker: &str, config_marker: &str) -> (r:
    Vec<u32>)
    ensures
        r.deep_view().map_values(|p: u32| p as int) == managed_pids_spec(
            crate::text::split_lines_spec(output@),
            runtime_marker@,
            config_marker@,
        ),
{
    let chars = str_to_chars(output);
    let lines = crate::text::split_lines(chars.as_slice());
    let rm = str_to_chars(runtime_marker);
    let cm = str_to_chars(config_marker);
    let kernel_marker = str_to_chars("mihomo");
    let mut r: Vec<u32> = Vec::new();
    let n = lines.len();
    let ghost ls = lines.deep_view();
    proof {
        assert(ls.skip(0) =~= ls);
    }
    for i in 0..n
        invariant
            n == lines@.len(),
            ls == lines.deep_view(),
            rm@ == runtime_marker@,
            cm@ == config_marker@,
            kernel_marker@ == "mihomo"@,
            managed_pids_spec(ls, runtime_marker@, config_marker@) =~= r.deep_view().map_values(
                |p: u32| p as int,
            ) + managed_pids_spec(ls.skip(i as int), runtime_marker@, config_marker@),
        decreases n - i,
    {
        let ghost rest = ls.skip(i as int);
        proof {
            assert(rest[0] == ls[i as int]);
            assert(rest.drop_first() =~= ls.skip(i + 1));
            assert(lines.deep_view()[i as int] == lines@[i as int]@);
        }
        let line = lines[i].as_slice();
        let t = crate::text::trim_start(line);
        let ghost ts = crate::text::trim_start_spec(ls[i as int]);
        let mut managed = false;
        let mut pid: u32 = 0;
        // locate the first token boundary
        let tn = t.len();
        let mut sp: usize = 0;
        while sp < tn && !crate::text::is_space_char(t[sp])
            invariant
                sp <= tn,
                tn == t@.len(),
                forall|k: int| 0 <= k < sp ==> !crate::text::is_space(t@[k]),
            decreases tn - sp,
        {
            sp = sp + 1;
        }
        proof {
            crate::text::lemma_first_space(ts);
            let f = crate::text::first_space_idx(ts);
            if f < sp {
                assert(crate::text::is_space(ts[f]));
            }
            if f > sp {
                assert(sp < tn);
                assert(!crate::text::is_space(ts[sp as int]));
                assert(crate::text::is_space(ts[sp as int]));
            }
            assert(f == sp);
        }
        if sp > 0 && sp < tn {
            let tok = sub_vec(t.as_slice(), 0, sp);
            match crate::text::parse_u64(tok.as_slice()) {
                Some(v) => {
                    if v <= u32::MAX as u64 {
                        let cmd_raw = sub_vec(t.as_slice(), sp + 1, tn);
                        let cmd = crate::text::trim(cmd_raw.as_slice());
                        if crate::text::contains_chars(cmd.as_slice(), kernel_marker.as_slice())
                            && crate::text::contains_chars(cmd.as_slice(), rm.as_slice())
                            && crate::text::contains_chars(cmd.as_slice(), cm.as_slice()) {
                            managed = true;
                            pid = v as u32;
                        }
                    }
                },
                None => {},
            }
        }
        if managed {
            crate::text::push_deep(&mut r, pid);
            proof {
                assert(ps_line_is_managed(ls[i as int], runtime_marker@, config_marker@));
                assert((ps_line_pid(ls[i as int])->0).0 == pid as int);
            }
        } else {
            proof {
                assert(!ps_line_is_managed(ls[i as int], runtime_marker@, config_marker@));
            }
        }
        assert(managed_pids_spec(ls, runtime_marker@, config_marker@)
            =~= r.deep_view().map_values(|p: u32| p as int) + managed_pids_spec(
            ls.skip(i + 1),
            runtime_marker@,
            config_marker@,
        ));
    }
    proof {
        assert(managed_pids_spec(ls.skip(n as int), runtime_marker@, config_marker@) =~= Seq::<
            int,
        >::empty());
        assert(r.deep_view().map_values(|p: u32| p as int) =~= managed_pids_spec(
            ls,
            runtime_marker@,
            config_marker@,
        ));
    }
    r
}

} // verus!

verus! {

/// `s` with the given character dropped from both ends.
pub open spec fn trim_char_start(s: Seq<char>, c: char) -> Seq<char>
    decreases s.len(),
{
    if s.len() > 0 && s[0] == c {
        trim_char_start(s.drop_first(), c)
    } else {
        s
    }
}

pub open spec fn trim_char_end(s: Seq<char>, c: char) -> Seq<char>
    decreases s.len(),
{
    if s.len() > 0 && s.last() == c {
        trim_char_end(s.drop_last(), c)
    } else {
        s
    }
}

/// The tag a latest-release redirect path carries: what follows the first
/// tag marker, with surrounding slashes dropped and the tag normalized.
pub open spec fn tag_from_path_spec(path: Seq<char>) -> Seq<char> {
    let i = crate::ingest::first_occurrence(path, "/releases/tag/"@);
    if i < 0 {
        Seq::empty()
    } else {
        normalize_tag_spec(
            trim_char_end(trim_char_start(path.skip(i + 14), '/'), '/'),
        )
    }
}

/// Extracts the release tag out of the redirect path of a latest-release
/// page. Fails exactly when the path carries no tag marker or the tag is
/// blank.
pub fn release_tag_from_path(path: &str) -> (r: Result<String, CoreError>)
    ensures
        r matches Ok(tag) ==> tag@ == tag_from_path_spec(path@) && tag@.len() > 0,
        r is Err <==> tag_from_path_spec(path@).len() == 0,
        r matches Err(e) ==> e is Parse,
{
    let chars = str_to_chars(path);
    let marker = str_to_chars("/releases/tag/");
    proof {
        crate::ingest::lemma_first_occurrence(path@, "/releases/tag/"@);
        reveal_strlit("/releases/tag/");
    }
    let tail = match crate::text::find_sub(chars.as_slice(), marker.as_slice()) {
        Some(p) => {
            proof {
                let fo = crate::ingest::first_occurrence(path@, "/releases/tag/"@);
                assert(crate::text::contains_sub(path@, "/releases/tag/"@)) by {
                    assert(crate::text::occurs_at(path@, "/releases/tag/"@, p as int));
                }
                if fo < p {
                    assert(crate::text::occurs_at(path@, "/releases/tag/"@, fo));
                }
                if fo > p {
                    assert(!crate::text::occurs_at(path@, "/releases/tag/"@, p as int));
                }
                assert(fo == p);
                assert(("/releases/tag/"@).len() == 14);
                assert(p + 14 <= chars@.len());
            }
            let clen = chars.len();
            assert(p + 14 <= clen);
            let start = p + 14;
            sub_vec(chars.as_slice(), start, clen)
        },
        None => {
            return Err(
                CoreError::Parse("failed to parse latest release tag from the release page".to_owned()),
            );
        },
    };
    let ghost tail0 = tail@;
    let n0 = tail.len();
    let mut lo: usize = 0;
    assert(tail0.subrange(0, n0 as int) =~= tail0);
    while lo < n0 && tail[lo] == '/'
        invariant
            lo <= n0,
            n0 == tail@.len(),
            tail0 == tail@,
            trim_char_start(tail0, '/') == trim_char_start(tail0.subrange(lo as int, n0 as int), '/'),
        decreases n0 - lo,
    {
        proof {
            let cur = tail0.subrange(lo as int, n0 as int);
            assert(cur.drop_first() =~= tail0.subrange(lo + 1, n0 as int));
        }
        lo = lo + 1;
    }
    proof {
        let cur = tail0.subrange(lo as int, n0 as int);
        assert(trim_char_start(cur, '/') == cur);
    }
    let mut hi: usize = n0;
    while lo < hi && tail[hi - 1] == '/'
        invariant
            lo <= hi <= n0,
            n0 == tail@.len(),
            tail0 == tail@,
            trim_char_end(trim_char_start(tail0, '/'), '/') == trim_char_end(
                tail0.subrange(lo as int, hi as int),
                '/',
            ),
        decreases hi,
    {
        proof {
            let cur = tail0.subrange(lo as int, hi as int);
            assert(cur.drop_last() =~= tail0.subrange(lo as int, hi - 1));
        }
        hi = hi - 1;
    }
    proof {
        let cur = tail0.subrange(lo as int, hi as int);
        assert(trim_char_end(cur, '/') == cur);
    }
    let raw = sub_vec(tail.as_slice(), lo, hi);
    let tag = normalize_version_tag(chars_to_string(raw.as_slice()).as_str());
    if tag.as_str().is_empty() {
        Err(CoreError::Parse("failed to parse latest release tag from the release page".to_owned()))
    } else {
        Ok(tag)
    }
}

} // verus!

verus! {

/// A path inside a directory.
pub open spec fn join_path(dir: Seq<char>, sep: char, name: Seq<char>) -> Seq<char> {
    dir + seq![sep] + name
}

fn push_path(out: &mut Vec<String>, dir: &[char], sep: char, name: &str)
    ensures
        final(out).deep_view() == old(out).deep_view().push(join_path(dir@, sep, name@)),
{
    let mut p: Vec<char> = Vec::new();
    append_slice(&mut p, dir);
    p.push(sep);
    append_str(&mut p, name);
    proof {
        assert(p@ =~= join_path(dir@, sep, name@));
    }
    crate::text::push_deep(out, chars_to_string(p.as_slice()));
}

/// The nested locations under one resource root that may hold the binary:
/// each of four conventional `bin` directories, first the direct binary path
/// and then the directory itself.
pub open spec fn resource_candidates(root: Seq<char>, sep: char, name: Seq<char>) -> Seq<
    Seq<char>,
> {
    let d1 = join_path(join_path(join_path(root, sep, "linkpad"@), sep, "resources"@), sep, "bin"@);
    let d2 = join_path(join_path(root, sep, "linkpad"@), sep, "bin"@);
    let d3 = join_path(join_path(root, sep, "resources"@), sep, "bin"@);
    let d4 = join_path(root, sep, "bin"@);
    seq![
        join_path(d1, sep, name),
        d1,
        join_path(d2, sep, name),
        d2,
        join_path(d3, sep, name),
        d3,
        join_path(d4, sep, name),
        d4,
    ]
}

/// The ordered well-known locations searched for the kernel binary: the bare
/// name, the runtime-local `bin`, the persistent config `bin`, the running
/// executable's directory and its conventional nested resource locations,
/// and on macOS the common package-manager prefixes.
pub open spec fn known_candidate_paths_spec(
    runtime_dir: Seq<char>,
    config_dir: Option<Seq<char>>,
    exe_dir: Option<Seq<char>>,
    exe_parent: Option<Seq<char>>,
    macos: bool,
    sep: char,
    name: Seq<char>,
) -> Seq<Seq<char>> {
    let runtime_bin = join_path(runtime_dir, sep, "bin"@);
    let base = seq![name, join_path(runtime_bin, sep, name), runtime_bin];
    let with_config = base + (match config_dir {
        Some(dir) => {
            let bin = join_path(dir, sep, "bin"@);
            seq![join_path(bin, sep, name), bin]
        },
        None => Seq::empty(),
    });
    let with_exe = with_config + (match exe_dir {
        Some(dir) => {
            let bin = join_path(dir, sep, "bin"@);
            seq![join_path(dir, sep, name), join_path(bin, sep, name), bin]
        },
        None => Seq::empty(),
    });
    let with_resources = with_exe + (match exe_parent {
        Some(parent) => resource_candidates(join_path(parent, sep, "Resources"@), sep, name)
            + resource_candidates(join_path(parent, sep, "resources"@), sep, name),
        None => Seq::empty(),
    });
    if macos {
        with_resources + seq![
            join_path("/opt/homebrew/bin"@, sep, name),
            join_path("/usr/local/bin"@, sep, name),
        ]
    } else {
        with_resources
    }
}

fn push_resource_candidates(out: &mut Vec<String>, root: &[char], sep: char, name: &str)
    ensures
        final(out).deep_view() == old(out).deep_view() + resource_candidates(root@, sep, name@),
{
    let mut d1: Vec<char> = Vec::new();
    append_slice(&mut d1, root);
    d1.push(sep);
    append_str(&mut d1, "linkpad");
    d1.push(sep);
    append_str(&mut d1, "resources");
    d1.push(sep);
    append_str(&mut d1, "bin");
    let mut d2: Vec<char> = Vec::new();
    append_slice(&mut d2, root);
    d2.push(sep);
    append_str(&mut d2, "linkpad");
    d2.push(sep);
    append_str(&mut d2, "bin");
    let mut d3: Vec<char> = Vec::new();
    append_slice(&mut d3, root);
    d3.push(sep);
    append_str(&mut d3, "resources");
    d3.push(sep);
    append_str(&mut d3, "bin");
    let mut d4: Vec<char> = Vec::new();
    append_slice(&mut d4, root);
    d4.push(sep);
    append_str(&mut d4, "bin");
    proof {
        assert(d1@ =~= join_path(
            join_path(join_path(root@, sep, "linkpad"@), sep, "resources"@),
            sep,
            "bin"@,
        ));
        assert(d2@ =~= join_path(join_path(root@, sep, "linkpad"@), sep, "bin"@));
        assert(d3@ =~= join_path(join_path(root@, sep, "resources"@), sep, "bin"@));
        assert(d4@ =~= join_path(root@, sep, "bin"@));
    }
    push_path(out, d1.as_slice(), sep, name);
    crate::text::push_deep(out, chars_to_string(d1.as_slice()));
    push_path(out, d2.as_slice(), sep, name);
    crate::text::push_deep(out, chars_to_string(d2.as_slice()));
    push_path(out, d3.as_slice(), sep, name);
    crate::text::push_deep(out, chars_to_string(d3.as_slice()));
    push_path(out, d4.as_slice(), sep, name);
    crate::text::push_deep(out, chars_to_string(d4.as_slice()));
    proof {
        assert(final(out).deep_view() =~= old(out).deep_view() + resource_candidates(
            root@,
            sep,
            name@,
        ));
    }
}

/// Builds the ordered well-known candidate paths for the kernel binary; the
/// caller observes each and hands the list to [`resolve_kernel_binary`].
pub fn known_kernel_candidate_paths(
    runtime_dir: &str,
    config_dir: Option<&str>,
    exe_dir: Option<&str>,
    exe_parent: Option<&str>,
    macos: bool,
    sep: char,
    name: &str,
) -> (r: Vec<String>)
    ensures
        r.deep_view() == known_candidate_paths_spec(
            runtime_dir@,
            match config_dir {
                Some(d) => Some(d@),
                None => None,
            },
            match exe_dir {
                Some(d) => Some(d@),
                None => None,
            },
            match exe_parent {
                Some(d) => Some(d@),
                None => None,
            },
            macos,
            sep,
            name@,
        ),
{
    let mut out: Vec<String> = Vec::new();
    crate::text::push_deep(&mut out, name.to_owned());
    let rd = str_to_chars(runtime_dir);
    let mut runtime_bin: Vec<char> = Vec::new();
    append_slice(&mut runtime_bin, rd.as_slice());
    runtime_bin.push(sep);
    append_str(&mut runtime_bin, "bin");
    proof {
        assert(runtime_bin@ =~= join_path(runtime_dir@, sep, "bin"@));
    }
    push_path(&mut out, runtime_bin.as_slice(), sep, name);
    crate::text::push_deep(&mut out, chars_to_string(runtime_bin.as_slice()));
    match config_dir {
        Some(dir) => {
            let dc = str_to_chars(dir);
            let mut bin: Vec<char> = Vec::new();
            append_slice(&mut bin, dc.as_slice());
            bin.push(sep);
            append_str(&mut bin, "bin");
            proof {
                assert(bin@ =~= join_path(dir@, sep, "bin"@));
            }
            push_path(&mut out, bin.as_slice(), sep, name);
            crate::text::push_deep(&mut out, chars_to_string(bin.as_slice()));
        },
        None => {},
    }
    match exe_dir {
        Some(dir) => {
            let dc = str_to_chars(dir);
            push_path(&mut out, dc.as_slice(), sep, name);
            let mut bin: Vec<char> = Vec::new();
            append_slice(&mut bin, dc.as_slice());
            bin.push(sep);
            append_str(&mut bin, "bin");
            proof {
                assert(bin@ =~= join_path(dir@, sep, "bin"@));
            }
            push_path(&mut out, bin.as_slice(), sep, name);
            crate::text::push_deep(&mut out, chars_to_string(bin.as_slice()));
        },
        None => {},
    }
    match exe_parent {
        Some(parent) => {
            let pc = str_to_chars(parent);
            let mut upper: Vec<char> = Vec::new();
            append_slice(&mut upper, pc.as_slice());
            upper.push(sep);
            append_str(&mut upper, "Resources");
            proof {
                assert(upper@ =~= join_path(parent@, sep, "Resources"@));
            }
            push_resource_candidates(&mut out, upper.as_slice(), sep, name);
            let mut lower: Vec<char> = Vec::new();
            append_slice(&mut lower, pc.as_slice());
            lower.push(sep);
            append_str(&mut lower, "resources");
            proof {
                assert(lower@ =~= join_path(parent@, sep, "resources"@));
            }
            push_resource_candidates(&mut out, lower.as_slice(), sep, name);
        },
        None => {},
    }
    if macos {
        let hb = str_to_chars("/opt/homebrew/bin");
        push_path(&mut out, hb.as_slice(), sep, name);
        let ul = str_to_chars("/usr/local/bin");
        push_path(&mut out, ul.as_slice(), sep, name);
    }
    proof {
        assert(out.deep_view() =~= known_candidate_paths_spec(
            runtime_dir@,
            match config_dir {
                Some(d) => Some(d@),
                None => None,
            },
            match exe_dir {
                Some(d) => Some(d@),
                None => None,
            },
            match exe_parent {
                Some(d) => Some(d@),
                None => None,
            },
            macos,
            sep,
            name@,
        ));
    }
    out
}

} // verus!

verus! {

/// Index of the first line that is not blank once trimmed, or `-1`.
pub open spec fn first_nonblank_idx(lines: Seq<Seq<char>>) -> int
    decreases lines.len(),
{
    if lines.len() == 0 {
        -1
    } else if trim_spec(lines[0]).len() > 0 {
        0
    } else {
        let r = first_nonblank_idx(lines.drop_first());
        if r < 0 {
            -1
        } else {
            r + 1
        }
    }
}

/// Reads a version out of the kernel's own version output: the first
/// non-blank line yields its version token or, when it carries none, the
/// whole trimmed line.
pub fn version_from_output(output: &str) -> (r: Option<String>)
    ensures
        ({
            let lines = crate::text::split_lines_spec(output@);
            match r {
                Some(v) => {
                    let i = first_nonblank_idx(lines);
                    &&& i >= 0
                    &&& match version_token_of(trim_spec(lines[i])) {
                        Some(tok) => v@ == tok,
                        None => v@ == trim_spec(lines[i]),
                    }
                },
                None => first_nonblank_idx(lines) == -1,
            }
        }),
{
    let chars = str_to_chars(output);
    let lines = crate::text::split_lines(chars.as_slice());
    let n = lines.len();
    let ghost ls = lines.deep_view();
    for i in 0..n
        invariant
            n == lines@.len(),
            ls == lines.deep_view(),
            ls == crate::text::split_lines_spec(output@),
            forall|j: int| 0 <= j < i ==> trim_spec((#[trigger] ls[j])).len() == 0,
        decreases n - i,
    {
        proof {
            assert(lines.deep_view()[i as int] == lines@[i as int]@);
        }
        let t = trim(lines[i].as_slice());
        if t.len() > 0 {
            proof {
                lemma_first_nonblank(ls, i as int);
            }
            let line = chars_to_string(t.as_slice());
            return match extract_version_from_text(line.as_str()) {
                Some(v) => Some(v),
                None => Some(line),
            };
        }
    }
    proof {
        lemma_all_blank(ls);
    }
    None
}

proof fn lemma_first_nonblank(lines: Seq<Seq<char>>, i: int)
    requires
        0 <= i < lines.len(),
        trim_spec(lines[i]).len() > 0,
        forall|j: int| 0 <= j < i ==> trim_spec((#[trigger] lines[j])).len() == 0,
    ensures
        first_nonblank_idx(lines) == i,
    decreases i,
{
    if i > 0 {
        lemma_first_nonblank(lines.drop_first(), i - 1);
        assert(forall|j: int| 0 <= j < i - 1 ==> lines.drop_first()[j] == lines[j + 1]);
    }
}

proof fn lemma_all_blank(lines: Seq<Seq<char>>)
    requires
        forall|j: int| 0 <= j < lines.len() ==> trim_spec((#[trigger] lines[j])).len() == 0,
    ensures
        first_nonblank_idx(lines) == -1,
    decreases lines.len(),
{
    if lines.len() > 0 {
        lemma_all_blank(lines.drop_first());
        assert(forall|j: int| 0 <= j < lines.len() - 1 ==> lines.drop_first()[j] == lines[j + 1]);
    }
}

} // verus!
