//! Where the compiler for a build is kept, and how it gets there.
//!
//! A published compiler is cached in one directory, one file per version,
//! named `zksolc-v` and the version. A compiler given by its path is used
//! where it is. A download writes a temporary file beside its target, named
//! after the target with a full stop, a number and a tilde, and renames it
//! into place when it is complete. The manager computes paths and the plan
//! of a download; it touches neither the disk nor the network.

use vstd::prelude::*;
use crate::error::{Error, ErrorView};
use crate::platform::{platform_label, platform_named, Platform};
use crate::text::{
    all_digits,
    char_is_digit,
    chars_of,
    decimal,
    has_prefix,
    lemma_decimal_is_injective,
    lemma_decimal_shape,
    push_decimal,
    push_str_chars,
    string_of,
};
use crate::version::{
    is_path_separator,
    is_semver,
    is_version_char,
    lemma_semver_chars,
    default_prefix_list,
    default_prefixes,
    resolve_spec,
    resolve_with,
    VersionSpec,
    VersionSpecView,
};

verus! {

/// What a manager is built from.
#[derive(Clone, Debug)]
pub struct ManagerOpts {
    /// The compiler to use: `x.y.z`, `solc:x.y.z`, `vx.y.z` or a path.
    pub version: String,
}

/// The compiler chosen for a build, and where it is kept.
#[derive(Clone, Debug)]
pub struct CompilerManager {
    /// Which compiler was asked for.
    pub spec: VersionSpec,
    /// The directory in which published compilers are cached.
    pub cache_dir: String,
    /// The path at which the compiler is run.
    pub compiler_path: String,
}

/// The mathematical value of a [`CompilerManager`].
pub struct CompilerManagerView {
    pub spec: VersionSpecView,
    pub cache_dir: Seq<char>,
    pub compiler_path: Seq<char>,
}

impl View for CompilerManager {
    type V = CompilerManagerView;

    open spec fn view(&self) -> CompilerManagerView {
        CompilerManagerView {
            spec: self.spec@,
            cache_dir: self.cache_dir@,
            compiler_path: self.compiler_path@,
        }
    }
}

/// The steps of one download.
#[derive(Clone, Debug)]
pub struct DownloadPlan {
    /// Where the compiler is published.
    pub url: String,
    /// The file to write while the download runs.
    pub temp_path: String,
    /// The path to rename that file to once it is complete and executable.
    pub target_path: String,
}

/// The mathematical value of a [`DownloadPlan`].
pub struct DownloadPlanView {
    pub url: Seq<char>,
    pub temp_path: Seq<char>,
    pub target_path: Seq<char>,
}

impl View for DownloadPlan {
    type V = DownloadPlanView;

    open spec fn view(&self) -> DownloadPlanView {
        DownloadPlanView {
            url: self.url@,
            temp_path: self.temp_path@,
            target_path: self.target_path@,
        }
    }
}

/// The path of the entry `name` of the directory `dir`. An empty `dir` stands
/// for the current directory.
pub open spec fn join_path(dir: Seq<char>, name: Seq<char>) -> Seq<char> {
    if dir.len() == 0 {
        name
    } else if is_path_separator(dir.last()) {
        dir + name
    } else {
        dir + seq!['/'] + name
    }
}

/// The name of the file that caches the compiler of `version`.
pub open spec fn binary_name(version: Seq<char>) -> Seq<char> {
    "zksolc-v"@ + version
}

/// The path at which the compiler that `spec` asks for is run.
pub open spec fn compiler_path_of(spec: VersionSpecView, cache_dir: Seq<char>) -> Seq<char> {
    match spec {
        VersionSpecView::Remote(version) => join_path(cache_dir, binary_name(version)),
        VersionSpecView::LocalPath(path) => path,
    }
}

/// Where the compiler of `version` for `platform` is published under `base`.
pub open spec fn download_url(base: Seq<char>, platform: Platform, version: Seq<char>) -> Seq<
    char,
> {
    base + seq!['/'] + platform.tag() + "/zksolc-"@ + platform.tag() + "-v"@ + version
}

/// The file that the download numbered `nonce` writes before it is renamed
/// to `target`: the target, a full stop, the number, and a tilde. No
/// semantic version ends with a tilde.
pub open spec fn temp_path_of(target: Seq<char>, nonce: nat) -> Seq<char> {
    target + seq!['.'] + decimal(nonce) + seq!['~']
}

/// What [`CompilerManager::build`] gives for a version text and a cache directory.
pub open spec fn build_spec(version: Seq<char>, cache_dir: Seq<char>) -> Result<
    CompilerManagerView,
    ErrorView,
> {
    build_with_spec(version, cache_dir, default_prefixes())
}

/// What [`CompilerManager::build_with`] gives for a version text, a cache
/// directory and the prefixes accepted before a version.
pub open spec fn build_with_spec(
    version: Seq<char>,
    cache_dir: Seq<char>,
    prefixes: Seq<Seq<char>>,
) -> Result<CompilerManagerView, ErrorView> {
    match resolve_spec(version, prefixes) {
        Err(e) => Err(e),
        Ok(spec) => Ok(
            CompilerManagerView {
                spec,
                cache_dir,
                compiler_path: compiler_path_of(spec, cache_dir),
            },
        ),
    }
}

/// What [`CompilerManager::download_plan`] gives: nothing to do for a compiler
/// given by its path, a failure where no compiler is published for the
/// machine, else the plan.
pub open spec fn download_plan_spec(
    manager: CompilerManagerView,
    os: Seq<char>,
    arch: Seq<char>,
    base: Seq<char>,
    nonce: nat,
) -> Result<Option<DownloadPlanView>, ErrorView> {
    match manager.spec {
        VersionSpecView::LocalPath(_) => Ok(None),
        VersionSpecView::Remote(version) => match platform_named(os, arch) {
            None => Err(ErrorView::UnsupportedPlatform(platform_label(os, arch))),
            Some(platform) => Ok(
                Some(
                    DownloadPlanView {
                        url: download_url(base, platform, version),
                        temp_path: temp_path_of(manager.compiler_path, nonce),
                        target_path: manager.compiler_path,
                    },
                ),
            ),
        },
    }
}

impl CompilerManagerView {
    /// The version is well formed, and the compiler path is the one that the
    /// version and the cache directory determine.
    pub open spec fn wf(self) -> bool {
        &&& self.spec.wf()
        &&& self.compiler_path == compiler_path_of(self.spec, self.cache_dir)
    }
}

/// Where published compilers are found when nothing else is configured.
pub fn default_download_base() -> (r: &'static str)
    ensures
        r@ == "https://github.com/matter-labs/zksolc-bin/raw/main"@,
{
    "https://github.com/matter-labs/zksolc-bin/raw/main"
}

/// Executable form of [`join_path`].
pub fn join(dir: &str, name: &str) -> (r: String)
    ensures
        r@ == join_path(dir@, name@),
{
    let mut out = chars_of(dir);
    if out.len() > 0 {
        let last = out[out.len() - 1];
        if !(last == '/' || last == '\\') {
            out.push('/');
        }
    }
    push_str_chars(&mut out, name);
    assert(out@ =~= join_path(dir@, name@));
    string_of(&out)
}

impl CompilerManager {
    /// Resolves the version text, accepting `solc:` or `v` before a version,
    /// and computes the compiler path. Downloads nothing.
    ///
    /// Fails exactly when the version text is refused: when it is empty or
    /// holds a NUL.
    pub fn build(opts: ManagerOpts, cache_dir: &str) -> (r: Result<CompilerManager, Error>)
        ensures
            match r {
                Ok(m) => build_spec(opts.version@, cache_dir@) == Ok::<
                    CompilerManagerView,
                    ErrorView,
                >(m@) && m@.wf(),
                Err(e) => build_spec(opts.version@, cache_dir@) == Err::<
                    CompilerManagerView,
                    ErrorView,
                >(e@),
            },
    {
        let prefixes = default_prefix_list();
        CompilerManager::build_with(opts, cache_dir, &prefixes)
    }

    /// Resolves the version text, accepting the given prefixes before a
    /// version, and computes the compiler path. Downloads nothing.
    ///
    /// Fails exactly when the version text is refused: when it is empty or
    /// holds a NUL.
    pub fn build_with(opts: ManagerOpts, cache_dir: &str, prefixes: &Vec<String>) -> (r: Result<
        CompilerManager,
        Error,
    >)
        ensures
            match r {
                Ok(m) => build_with_spec(opts.version@, cache_dir@, prefixes.deep_view()) == Ok::<
                    CompilerManagerView,
                    ErrorView,
                >(m@) && m@.wf(),
                Err(e) => build_with_spec(opts.version@, cache_dir@, prefixes.deep_view()) == Err::<
                    CompilerManagerView,
                    ErrorView,
                >(e@),
            },
    {
        let spec = match resolve_with(opts.version.as_str(), prefixes) {
            Ok(spec) => spec,
            Err(e) => {
                return Err(e);
            },
        };
        let compiler_path = match &spec {
            VersionSpec::Remote(version) => {
                let mut name: Vec<char> = Vec::new();
                push_str_chars(&mut name, "zksolc-v");
                push_str_chars(&mut name, version.as_str());
                assert(name@ =~= binary_name(version@));
                let name = string_of(&name);
                join(cache_dir, name.as_str())
            },
            VersionSpec::LocalPath(path) => path.clone(),
        };
        Ok(CompilerManager { spec, cache_dir: cache_dir.to_owned(), compiler_path })
    }

    /// The path at which the compiler is run. The file is there once the
    /// caller has found it present or a download to it has succeeded.
    pub fn get_full_compiler_path(&self) -> (r: String)
        ensures
            r@ == self@.compiler_path,
    {
        self.compiler_path.clone()
    }

    /// The directory that must exist before a compiler is looked for or downloaded.
    pub fn compilers_dir(&self) -> (r: String)
        ensures
            r@ == self@.cache_dir,
    {
        self.cache_dir.clone()
    }

    /// Whether the compiler is a published one, which is downloaded when it is missing.
    pub fn is_remote(&self) -> (r: bool)
        ensures
            r == (self@.spec is Remote),
    {
        match &self.spec {
            VersionSpec::Remote(_) => true,
            VersionSpec::LocalPath(_) => false,
        }
    }

    /// Plans the download of the compiler for the machine that reports the
    /// operating system `os` and the architecture `arch`, from the
    /// repository at `base`. `nonce` tells the temporary file of this download
    /// from those of others; the process number serves.
    ///
    /// Gives `Ok(None)` for a compiler given by its path: there is nothing to
    /// download. Fails with an unsupported-platform error where no compiler
    /// is published for the machine.
    pub fn download_plan(&self, os: &str, arch: &str, base: &str, nonce: u64) -> (r: Result<
        Option<DownloadPlan>,
        Error,
    >)
        ensures
            match r {
                Ok(None) => download_plan_spec(self@, os@, arch@, base@, nonce as nat) == Ok::<
                    Option<DownloadPlanView>,
                    ErrorView,
                >(None),
                Ok(Some(plan)) => download_plan_spec(self@, os@, arch@, base@, nonce as nat) == Ok::<
                    Option<DownloadPlanView>,
                    ErrorView,
                >(Some(plan@)),
                Err(e) => download_plan_spec(self@, os@, arch@, base@, nonce as nat) == Err::<
                    Option<DownloadPlanView>,
                    ErrorView,
                >(e@),
            },
    {
        let version = match &self.spec {
            VersionSpec::LocalPath(_) => {
                return Ok(None);
            },
            VersionSpec::Remote(version) => version,
        };
        let platform = match Platform::detect(os, arch) {
            Ok(platform) => platform,
            Err(e) => {
                return Err(e);
            },
        };
        let mut url = chars_of(base);
        url.push('/');
        push_str_chars(&mut url, platform.tag_text());
        push_str_chars(&mut url, "/zksolc-");
        push_str_chars(&mut url, platform.tag_text());
        push_str_chars(&mut url, "-v");
        push_str_chars(&mut url, version.as_str());
        assert(url@ =~= download_url(base@, platform, version@));
        let mut temp = chars_of(self.compiler_path.as_str());
        temp.push('.');
        push_decimal(&mut temp, nonce);
        temp.push('~');
        assert(temp@ =~= temp_path_of(self.compiler_path@, nonce as nat));
        Ok(
            Some(
                DownloadPlan {
                    url: string_of(&url),
                    temp_path: string_of(&temp),
                    target_path: self.compiler_path.clone(),
                },
            ),
        )
    }
}

/// Two versions are never cached under the same path.
pub proof fn lemma_versions_do_not_collide(cache_dir: Seq<char>, v1: Seq<char>, v2: Seq<char>)
    requires
        v1 != v2,
    ensures
        compiler_path_of(VersionSpecView::Remote(v1), cache_dir) != compiler_path_of(
            VersionSpecView::Remote(v2),
            cache_dir,
        ),
{
    let first = compiler_path_of(VersionSpecView::Remote(v1), cache_dir);
    let second = compiler_path_of(VersionSpecView::Remote(v2), cache_dir);
    let lead = if cache_dir.len() == 0 {
        "zksolc-v"@
    } else if is_path_separator(cache_dir.last()) {
        cache_dir + "zksolc-v"@
    } else {
        cache_dir + seq!['/'] + "zksolc-v"@
    };
    assert(first =~= lead + v1);
    assert(second =~= lead + v2);
    if first == second {
        assert((lead + v1).skip(lead.len() as int) =~= v1);
        assert((lead + v2).skip(lead.len() as int) =~= v2);
    }
}

/// The path of a cached compiler tells its version: the same cache directory
/// and the same version always give the same path, and only they.
pub proof fn lemma_compiler_path_is_determined(
    cache_dir: Seq<char>,
    a: VersionSpecView,
    b: VersionSpecView,
)
    requires
        a is Remote,
        b is Remote,
    ensures
        compiler_path_of(a, cache_dir) == compiler_path_of(b, cache_dir) <==> a == b,
{
    if a != b {
        lemma_versions_do_not_collide(cache_dir, a->Remote_0, b->Remote_0);
    }
}

/// The temporary file of a download never has the name of its target.
pub proof fn lemma_temp_differs_from_target(target: Seq<char>, nonce: nat)
    ensures
        temp_path_of(target, nonce) != target,
{
    lemma_decimal_shape(nonce);
    assert(temp_path_of(target, nonce).len() > target.len());
}

/// The temporary file of a download lies in the directory of its target: its
/// path is the target's path with an ending that holds no path separator.
pub proof fn lemma_temp_lies_beside_target(target: Seq<char>, nonce: nat)
    ensures
        target.is_prefix_of(temp_path_of(target, nonce)),
        forall|k: int|
            target.len() <= k < temp_path_of(target, nonce).len() ==> !is_path_separator(
                #[trigger] temp_path_of(target, nonce)[k],
            ),
{
    let temp = temp_path_of(target, nonce);
    let digits = decimal(nonce);
    lemma_decimal_shape(nonce);
    assert(temp.subrange(0, target.len() as int) =~= target);
    assert forall|k: int| target.len() <= k < temp.len() implies !is_path_separator(
        #[trigger] temp[k],
    ) by {
        if target.len() < k < target.len() + 1 + digits.len() {
            assert(temp[k] == digits[k - target.len() - 1]);
            assert(crate::text::is_digit(digits[k - target.len() - 1]));
        }
    }
}

/// Downloads with different numbers write different temporary files, so two
/// processes that fetch the same compiler at once never write to one file.
pub proof fn lemma_temps_of_different_downloads_differ(target: Seq<char>, a: nat, b: nat)
    requires
        a != b,
    ensures
        temp_path_of(target, a) != temp_path_of(target, b),
{
    let lead = target + seq!['.'];
    let ta = temp_path_of(target, a);
    let tb = temp_path_of(target, b);
    if ta == tb {
        assert(ta.len() == lead.len() + decimal(a).len() + 1);
        assert(tb.len() == lead.len() + decimal(b).len() + 1);
        assert(decimal(a) =~= ta.subrange(lead.len() as int, (lead.len() + decimal(a).len()) as int));
        assert(decimal(b) =~= tb.subrange(lead.len() as int, (lead.len() + decimal(b).len()) as int));
        lemma_decimal_is_injective(a, b);
    }
}

/// The temporary file of a download never has the name under which any
/// version is cached, in any directory: a file left behind by a download that
/// was cut short is not taken for a compiler.
pub proof fn lemma_temp_is_no_cached_compiler(
    target: Seq<char>,
    nonce: nat,
    cache_dir: Seq<char>,
    version: Seq<char>,
)
    requires
        is_semver(version),
    ensures
        temp_path_of(target, nonce) != compiler_path_of(
            VersionSpecView::Remote(version),
            cache_dir,
        ),
{
    lemma_semver_chars(version);
    let temp = temp_path_of(target, nonce);
    let cached = compiler_path_of(VersionSpecView::Remote(version), cache_dir);
    assert(temp.last() == '~');
    assert(cached.last() == version.last());
    assert(is_version_char(version[version.len() - 1]));
}

/// Whether `candidate` has the name of a temporary file of a download to
/// `target`: the target, a full stop, digits, and a tilde.
pub open spec fn is_leftover_of(candidate: Seq<char>, target: Seq<char>) -> bool {
    exists|digits: Seq<char>|
        digits.len() > 0 && all_digits(digits) && candidate == #[trigger] leftover_name(
            target,
            digits,
        )
}

/// The target, a full stop, `digits`, and a tilde.
pub open spec fn leftover_name(target: Seq<char>, digits: Seq<char>) -> Seq<char> {
    target + seq!['.'] + digits + seq!['~']
}

/// The permission bits of the cache directory: its owner may read, write and
/// search it; others may read and search it.
pub const CACHE_DIR_MODE: u32 = 0o755;

/// The permission bits of a cached compiler: its owner may read, write and
/// run it; others may read and run it.
pub const COMPILER_MODE: u32 = 0o755;

/// The permission bits that let someone run a file.
pub const EXECUTE_BITS: u32 = 0o111;

/// Whether what was found at the compiler's path can be run: a regular file
/// that someone may execute.
pub fn is_runnable(is_file: bool, permission_bits: u32) -> (r: bool)
    ensures
        r == (is_file && permission_bits & EXECUTE_BITS != 0),
{
    is_file && permission_bits & EXECUTE_BITS != 0
}

/// For how many seconds a temporary file may lie untouched before it counts
/// as left behind by a download that was cut short.
pub const LEFTOVER_AFTER_SECONDS: u64 = 3600;

/// Whether `candidate` has the name of a temporary file of a download to
/// `target`. Such a file, when it has not been touched for
/// [`LEFTOVER_AFTER_SECONDS`], was left behind and may be removed.
#[verifier::loop_isolation(false)]
pub fn has_leftover_name(candidate: &str, target: &str) -> (r: bool)
    ensures
        r == is_leftover_of(candidate@, target@),
{
    let text = chars_of(candidate);
    let mut lead = chars_of(target);
    lead.push('.');
    let ghost lead_len = lead@.len() as int;
    proof {
        assert forall|digits: Seq<char>|
            candidate@ == #[trigger] leftover_name(target@, digits) implies candidate@.len()
            == lead_len + digits.len() + 1 && lead@.is_prefix_of(candidate@) && candidate@.last()
            == '~' && digits =~= candidate@.subrange(lead_len, candidate@.len() - 1) by {
            let name = leftover_name(target@, digits);
            assert(name.subrange(0, lead_len) =~= lead@);
        }
    }
    if !has_prefix(&text, &lead) || text.len() - lead.len() < 2 || text[text.len() - 1] != '~' {
        return false;
    }
    let end = text.len() - 1;
    let ghost middle = text@.subrange(lead_len, end as int);
    let mut i: usize = lead.len();
    while i < end
        invariant
            lead@.len() <= i <= end,
            forall|k: int| lead@.len() <= k < i ==> crate::text::is_digit(#[trigger] text@[k]),
        decreases end - i,
    {
        if !char_is_digit(text[i]) {
            assert(!crate::text::is_digit(middle[i - lead_len]));
            return false;
        }
        i += 1;
    }
    proof {
        assert(all_digits(middle)) by {
            assert forall|k: int| 0 <= k < middle.len() implies crate::text::is_digit(
                #[trigger] middle[k],
            ) by {
                assert(middle[k] == text@[lead_len + k]);
            }
        }
        assert(lead@ =~= text@.subrange(0, lead_len));
        let name = leftover_name(target@, middle);
        assert(name.len() == text@.len());
        assert forall|k: int| 0 <= k < name.len() implies name[k] == text@[k] by {
            if k < lead_len {
                assert(text@.subrange(0, lead_len)[k] == text@[k]);
            } else if k < end {
                assert(middle[k - lead_len] == text@[k]);
            }
        }
        assert(candidate@ =~= name);
    }
    true
}

/// The temporary file of every download has the name of a leftover of its target.
pub proof fn lemma_temp_has_leftover_name(target: Seq<char>, nonce: nat)
    ensures
        is_leftover_of(temp_path_of(target, nonce), target),
{
    lemma_decimal_shape(nonce);
    assert(temp_path_of(target, nonce) == leftover_name(target, decimal(nonce)));
}

/// No compiler is cached under the name of a leftover, so removing leftovers
/// never removes a compiler.
pub proof fn lemma_leftover_is_no_cached_compiler(
    candidate: Seq<char>,
    target: Seq<char>,
    cache_dir: Seq<char>,
    version: Seq<char>,
)
    requires
        is_leftover_of(candidate, target),
        is_semver(version),
    ensures
        candidate != compiler_path_of(VersionSpecView::Remote(version), cache_dir),
{
    lemma_semver_chars(version);
    let cached = compiler_path_of(VersionSpecView::Remote(version), cache_dir);
    assert(candidate.last() == '~');
    assert(cached.last() == version.last());
    assert(is_version_char(version[version.len() - 1]));
}

} // verus!
