//! Where the tool keeps its files, where it looks for `codex`, and the answers that
//! stand in for the service in trials.

use crate::models::UsageSnapshot;
use crate::text;
use std::path::PathBuf;
use vstd::prelude::*;

verus! {

// ---------------------------------------------------------------------------
// Paths
// ---------------------------------------------------------------------------
/// `std::path::PathBuf`: a path. Its contents are [`path_components`].
#[verifier::external_type_specification]
#[verifier::external_body]
pub struct ExPathBuf(std::path::PathBuf);

/// The components of a path, from the root on, each as a text.
pub uninterp spec fn path_components(path: std::path::PathBuf) -> Seq<Seq<char>>;

/// Whether a text is the name of one component: longer than the names that step in
/// place or up, and without separators.
pub open spec fn is_plain_name(name: Seq<char>) -> bool {
    &&& name.len() > 2
    &&& forall|i: int|
        0 <= i < name.len() ==> #[trigger] name[i] != '/' && name[i] != '\\' && name[i] != ':'
}

/// Calls `Path::join` with the name of one component: the path with that component
/// at its end.
#[verifier::external_body]
fn join(base: &PathBuf, name: &str) -> (r: PathBuf)
    requires
        is_plain_name(name@),
    ensures
        path_components(r) == path_components(*base).push(name@),
{
    base.join(name)
}

/// `Clone::clone` of `PathBuf`: the same path.
pub assume_specification[ <std::path::PathBuf as std::clone::Clone>::clone ](
    path: &std::path::PathBuf,
) -> (r: std::path::PathBuf)
    ensures
        r == *path,
;

/// The files of the tool.
#[derive(Debug, Clone)]
pub struct AppPaths {
    pub home_dir: PathBuf,
    pub data_dir: PathBuf,
    pub store_path: PathBuf,
    pub config_path: PathBuf,
    pub live_auth_path: PathBuf,
    pub codex_config_path: PathBuf,
}

/// The systems that differ in where they keep files.
#[derive(Debug, Clone, Copy, PartialEq, Eq, Structural)]
pub enum Platform {
    MacOs,
    OtherUnix,
    Other,
}

/// The components of some paths.
pub open spec fn components_of(paths: Seq<PathBuf>) -> Seq<Seq<Seq<char>>> {
    paths.map_values(|path: PathBuf| path_components(path))
}

/// Where an earlier tool may have left its accounts, on a platform.
pub open spec fn legacy_places(
    home: Seq<Seq<char>>,
    platform: Platform,
    data_home: Option<PathBuf>,
) -> Seq<Seq<Seq<char>>> {
    match platform {
        Platform::MacOs => seq![
            home.push("Library"@).push("Application Support"@).push("com.carry.codex-tools"@).push(
                "accounts.json"@,
            ),
        ],
        Platform::OtherUnix => {
            let own = home.push(".local"@).push("share"@).push("com.carry.codex-tools"@).push(
                "accounts.json"@,
            );
            match data_home {
                Some(data_home) => seq![
                    path_components(data_home).push("com.carry.codex-tools"@).push(
                        "accounts.json"@,
                    ),
                    own,
                ],
                None => seq![own],
            }
        },
        Platform::Other => seq![],
    }
}

/// The names that paths are made of.
proof fn lemma_plain_names()
    ensures
        is_plain_name(".codex-pool"@),
        is_plain_name("accounts.json"@),
        is_plain_name("config.toml"@),
        is_plain_name(".codex"@),
        is_plain_name("auth.json"@),
        is_plain_name("Library"@),
        is_plain_name("Application Support"@),
        is_plain_name("com.carry.codex-tools"@),
        is_plain_name(".local"@),
        is_plain_name("share"@),
        is_plain_name("bin"@),
        is_plain_name(".npm-global"@),
        is_plain_name(".volta"@),
        is_plain_name(".asdf"@),
        is_plain_name("shims"@),
        is_plain_name(".pnpm"@),
        is_plain_name("pnpm"@),
        is_plain_name("codex"@),
{
    reveal_strlit(".codex-pool");
    reveal_strlit("accounts.json");
    reveal_strlit("config.toml");
    reveal_strlit(".codex");
    reveal_strlit("auth.json");
    reveal_strlit("Library");
    reveal_strlit("Application Support");
    reveal_strlit("com.carry.codex-tools");
    reveal_strlit(".local");
    reveal_strlit("share");
    reveal_strlit("bin");
    reveal_strlit(".npm-global");
    reveal_strlit(".volta");
    reveal_strlit(".asdf");
    reveal_strlit("shims");
    reveal_strlit(".pnpm");
    reveal_strlit("pnpm");
    reveal_strlit("codex");
}

impl AppPaths {
    /// The files of the tool under a home directory.
    pub fn for_home(home_dir: PathBuf) -> (r: AppPaths)
        ensures
            r.home_dir == home_dir,
            ({
                let home = path_components(home_dir);
                &&& path_components(r.data_dir) == home.push(".codex-pool"@)
                &&& path_components(r.store_path) == home.push(".codex-pool"@).push(
                    "accounts.json"@,
                )
                &&& path_components(r.config_path) == home.push(".codex-pool"@).push(
                    "config.toml"@,
                )
                &&& path_components(r.live_auth_path) == home.push(".codex"@).push("auth.json"@)
                &&& path_components(r.codex_config_path) == home.push(".codex"@).push(
                    "config.toml"@,
                )
            }),
    {
        proof {
            lemma_plain_names();
        }
        let data_dir = join(&home_dir, ".codex-pool");
        let store_path = join(&data_dir, "accounts.json");
        let config_path = join(&data_dir, "config.toml");
        let codex_dir = join(&home_dir, ".codex");
        let live_auth_path = join(&codex_dir, "auth.json");
        let codex_config_path = join(&codex_dir, "config.toml");
        AppPaths {
            home_dir,
            data_dir,
            store_path,
            config_path,
            live_auth_path,
            codex_config_path,
        }
    }

    /// Where an earlier tool may have left its accounts, on a platform. `data_home`
    /// is the directory for data that the environment names.
    pub fn legacy_store_candidates(&self, platform: Platform, data_home: Option<PathBuf>) -> (r: Vec<
        PathBuf,
    >)
        ensures
            components_of(r@) == legacy_places(
                path_components(self.home_dir),
                platform,
                data_home,
            ),
    {
        proof {
            lemma_plain_names();
        }
        let mut candidates: Vec<PathBuf> = Vec::new();
        match platform {
            Platform::MacOs => {
                let library = join(&self.home_dir, "Library");
                let support = join(&library, "Application Support");
                let tool = join(&support, "com.carry.codex-tools");
                candidates.push(join(&tool, "accounts.json"));
            },
            Platform::OtherUnix => {
                if let Some(data_home) = &data_home {
                    let tool = join(data_home, "com.carry.codex-tools");
                    candidates.push(join(&tool, "accounts.json"));
                }
                let local = join(&self.home_dir, ".local");
                let share = join(&local, "share");
                let tool = join(&share, "com.carry.codex-tools");
                candidates.push(join(&tool, "accounts.json"));
            },
            Platform::Other => {},
        }
        assert(components_of(candidates@) =~= legacy_places(
            path_components(self.home_dir),
            platform,
            data_home,
        ));
        candidates
    }
}

/// The place of the first flag that is set, or the number of flags.
pub open spec fn first_set(flags: Seq<(PathBuf, bool)>) -> int
    decreases flags.len(),
{
    if flags.len() == 0 || flags[0].1 {
        0
    } else {
        1 + first_set(flags.skip(1))
    }
}

/// The store of an earlier tool that is imported: the one that was named, if it is
/// there, and else the first of the candidates that is. Each comes with whether it
/// is there.
pub fn resolve_legacy_store_path(
    explicit: Option<(PathBuf, bool)>,
    candidates: Vec<(PathBuf, bool)>,
) -> (r: Option<PathBuf>)
    ensures
        r == match explicit {
            Some((path, there)) => if there {
                Some(path)
            } else {
                None
            },
            None => if first_set(candidates@) < candidates@.len() {
                Some(candidates@[first_set(candidates@)].0)
            } else {
                None
            },
        },
{
    if let Some((path, there)) = explicit {
        return if there {
            Some(path)
        } else {
            None
        };
    }
    let mut i: usize = 0;
    assert(candidates@.skip(0) =~= candidates@);
    while i < candidates.len()
        invariant
            0 <= i <= candidates@.len(),
            explicit is None,
            first_set(candidates@) == i + first_set(candidates@.skip(i as int)),
        decreases candidates@.len() - i,
    {
        assert(candidates@.skip(i as int)[0] == candidates@[i as int]);
        assert(candidates@.skip(i as int).skip(1) =~= candidates@.skip(i + 1));
        if candidates[i].1 {
            return Some(candidates[i].0.clone());
        }
        i = i + 1;
    }
    None
}

// ---------------------------------------------------------------------------
// The command `codex`
// ---------------------------------------------------------------------------
/// The directories under a home directory where `codex` may be.
pub open spec fn home_places(home: Seq<Seq<char>>) -> Seq<Seq<Seq<char>>> {
    seq![
        home.push(".local"@).push("bin"@),
        home.push(".npm-global"@).push("bin"@),
        home.push(".volta"@).push("bin"@),
        home.push(".asdf"@).push("shims"@),
        home.push(".pnpm"@),
        home.push("Library"@).push("pnpm"@),
        home.push("bin"@),
    ]
}

/// The directory of a user's own programs.
pub fn user_bin_directory(home: &PathBuf) -> (r: PathBuf)
    ensures
        path_components(r) == path_components(*home).push(".local"@).push("bin"@),
{
    proof {
        lemma_plain_names();
    }
    let local = join(home, ".local");
    join(&local, "bin")
}

/// The directories under a home directory where `codex` may be.
fn home_directories(home: &PathBuf) -> (r: Vec<PathBuf>)
    ensures
        components_of(r@) == home_places(path_components(*home)),
{
    proof {
        lemma_plain_names();
    }
    let mut dirs: Vec<PathBuf> = Vec::new();
    let npm = join(home, ".npm-global");
    let volta = join(home, ".volta");
    let asdf = join(home, ".asdf");
    let library = join(home, "Library");
    dirs.push(user_bin_directory(home));
    dirs.push(join(&npm, "bin"));
    dirs.push(join(&volta, "bin"));
    dirs.push(join(&asdf, "shims"));
    dirs.push(join(home, ".pnpm"));
    dirs.push(join(&library, "pnpm"));
    dirs.push(join(home, "bin"));
    assert(components_of(dirs@) =~= home_places(path_components(*home)));
    dirs
}

/// The directories of a platform where `codex` may be.
pub fn system_directories(platform: Platform) -> (r: Vec<String>)
    ensures
        text::texts(r@) == if platform == Platform::MacOs {
            seq!["/opt/homebrew/bin"@, "/usr/local/bin"@, "/usr/bin"@]
        } else {
            seq![]
        },
{
    let mut dirs: Vec<String> = Vec::new();
    if platform == Platform::MacOs {
        dirs.push("/opt/homebrew/bin".to_owned());
        dirs.push("/usr/local/bin".to_owned());
        dirs.push("/usr/bin".to_owned());
        assert(text::texts(dirs@) =~= seq!["/opt/homebrew/bin"@, "/usr/local/bin"@, "/usr/bin"@]);
    } else {
        assert(text::texts(dirs@) =~= seq![]);
    }
    dirs
}

/// The paths of `codex` in some directories.
pub open spec fn codex_in(dirs: Seq<Seq<Seq<char>>>) -> Seq<Seq<Seq<char>>> {
    dirs.map_values(|dir: Seq<Seq<char>>| dir.push("codex"@))
}

/// Appends the paths of `codex` in some directories.
fn push_codex(candidates: &mut Vec<PathBuf>, dirs: &Vec<PathBuf>)
    ensures
        components_of(final(candidates)@) == components_of(old(candidates)@) + codex_in(
            components_of(dirs@),
        ),
{
    proof {
        lemma_plain_names();
    }
    let ghost before = components_of(candidates@);
    let ghost added = codex_in(components_of(dirs@));
    let mut i: usize = 0;
    assert(before + added.take(0) =~= before);
    while i < dirs.len()
        invariant
            0 <= i <= dirs@.len(),
            is_plain_name("codex"@),
            added == codex_in(components_of(dirs@)),
            components_of(candidates@) == before + added.take(i as int),
        decreases dirs@.len() - i,
    {
        let ghost so_far = components_of(candidates@);
        let path = join(&dirs[i], "codex");
        assert(path_components(path) == added[i as int]);
        candidates.push(path);
        assert(components_of(candidates@) =~= so_far.push(added[i as int]));
        assert(components_of(candidates@) =~= before + added.take(i + 1));
        i = i + 1;
    }
    assert(added.take(i as int) =~= added);
}

/// Where `codex` is looked for, in order: in the directories of the search path,
/// under the home directory, and in those of the system.
pub fn codex_candidates(
    search_path: &Vec<PathBuf>,
    home: Option<&PathBuf>,
    system: &Vec<PathBuf>,
) -> (r: Vec<PathBuf>)
    ensures
        components_of(r@) == codex_in(components_of(search_path@)) + (match home {
            Some(home) => codex_in(home_places(path_components(*home))),
            None => seq![],
        }) + codex_in(components_of(system@)),
{
    let mut candidates: Vec<PathBuf> = Vec::new();
    assert(components_of(candidates@) =~= Seq::empty());
    push_codex(&mut candidates, search_path);
    assert(components_of(candidates@) =~= codex_in(components_of(search_path@)));
    match home {
        Some(home) => {
            let dirs = home_directories(home);
            push_codex(&mut candidates, &dirs);
        },
        None => {
            assert(components_of(candidates@) =~= codex_in(components_of(search_path@)) + Seq::<
                Seq<Seq<char>>,
            >::empty());
        },
    }
    push_codex(&mut candidates, system);
    candidates
}

/// The search path of a command: the directory that it is in comes first.
pub fn merged_search_path(parent: PathBuf, current: Vec<PathBuf>) -> (r: Vec<PathBuf>)
    ensures
        r@ == seq![parent] + current@,
{
    let mut entries: Vec<PathBuf> = Vec::new();
    let mut current = current;
    let ghost rest = current@;
    entries.push(parent);
    entries.append(&mut current);
    assert(entries@ =~= seq![parent] + rest);
    entries
}

// ---------------------------------------------------------------------------
// Trials
// ---------------------------------------------------------------------------
/// An answer that stands in for the service.
#[derive(Debug, Clone)]
pub enum MockUsageResponse {
    Snapshot(UsageSnapshot),
    Error(String),
}

/// The answers that stand in for the service, by account. Of two for one account the
/// later counts.
#[derive(Debug, Clone)]
pub struct TestHooks {
    pub mock_usage: Vec<(String, MockUsageResponse)>,
}

impl Default for TestHooks {
    fn default() -> (r: TestHooks)
        ensures
            r.mock_usage@.len() == 0,
    {
        TestHooks { mock_usage: Vec::new() }
    }
}

/// The answer that stands in for the service.
pub open spec fn mocked(
    answers: Seq<(String, MockUsageResponse)>,
    account_id: Seq<char>,
) -> Option<MockUsageResponse>
    decreases answers.len(),
{
    if answers.len() == 0 {
        None
    } else if answers.last().0@ == account_id {
        Some(answers.last().1)
    } else {
        mocked(answers.drop_last(), account_id)
    }
}

/// An answer as what a request for usage comes to.
pub open spec fn is_mocked_result(
    r: Option<Result<UsageSnapshot, String>>,
    answer: Option<MockUsageResponse>,
) -> bool {
    match (r, answer) {
        (None, None) => true,
        (Some(Ok(snapshot)), Some(MockUsageResponse::Snapshot(given))) => snapshot == given,
        (Some(Err(error)), Some(MockUsageResponse::Error(given))) => error == given,
        _ => false,
    }
}

impl TestHooks {
    /// Lets an answer stand in for the service.
    pub fn set_mock_usage(&mut self, account_id: &str, answer: MockUsageResponse)
        ensures
            mocked(final(self).mock_usage@, account_id@) == Some(answer),
            forall|other: Seq<char>|
                other != account_id@ ==> #[trigger] mocked(final(self).mock_usage@, other)
                    == mocked(old(self).mock_usage@, other),
    {
        self.mock_usage.push((account_id.to_owned(), answer));
        assert(self.mock_usage@.drop_last() =~= old(self).mock_usage@);
    }

    /// What a request for the usage of an account comes to, where an answer stands in
    /// for the service.
    pub fn mock_usage_of(&self, account_id: &str) -> (r: Option<Result<UsageSnapshot, String>>)
        ensures
            is_mocked_result(r, mocked(self.mock_usage@, account_id@)),
    {
        let mut i: usize = self.mock_usage.len();
        assert(self.mock_usage@.take(i as int) =~= self.mock_usage@);
        while i > 0
            invariant
                0 <= i <= self.mock_usage@.len(),
                mocked(self.mock_usage@, account_id@) == mocked(
                    self.mock_usage@.take(i as int),
                    account_id@,
                ),
            decreases i,
        {
            assert(self.mock_usage@.take(i as int).last() == self.mock_usage@[i - 1]);
            assert(self.mock_usage@.take(i as int).drop_last() =~= self.mock_usage@.take(i - 1));
            if text::same(self.mock_usage[i - 1].0.as_str(), account_id) {
                return match &self.mock_usage[i - 1].1 {
                    MockUsageResponse::Snapshot(snapshot) => Some(Ok(snapshot.clone())),
                    MockUsageResponse::Error(error) => Some(Err(error.clone())),
                };
            }
            i = i - 1;
        }
        None
    }
}

/// What the commands work with.
#[derive(Debug, Clone)]
pub struct AppContext {
    pub paths: AppPaths,
    pub codex_cli_path: Option<PathBuf>,
    pub test_hooks: TestHooks,
}

impl AppContext {
    /// A context over some paths, with `codex` where it was found, and the service
    /// itself.
    pub fn with_paths(paths: AppPaths, codex_cli_path: Option<PathBuf>) -> (r: AppContext)
        ensures
            r.paths == paths,
            r.codex_cli_path == codex_cli_path,
            r.test_hooks.mock_usage@.len() == 0,
    {
        AppContext { paths, codex_cli_path, test_hooks: TestHooks::default() }
    }
}

// ---------------------------------------------------------------------------
// Laws
// ---------------------------------------------------------------------------
/// The first flag that is set is set, and none before it is.
proof fn lemma_first_set(flags: Seq<(PathBuf, bool)>)
    ensures
        0 <= first_set(flags) <= flags.len(),
        first_set(flags) < flags.len() ==> flags[first_set(flags)].1,
        forall|i: int| 0 <= i < first_set(flags) ==> !(#[trigger] flags[i]).1,
    decreases flags.len(),
{
    if flags.len() > 0 && !flags[0].1 {
        let rest = flags.skip(1);
        lemma_first_set(rest);
        assert forall|i: int| 0 <= i < first_set(flags) implies !(#[trigger] flags[i]).1 by {
            if i > 0 {
                assert(rest[i - 1] == flags[i]);
            }
        }
        if first_set(rest) < rest.len() {
            assert(rest[first_set(rest)] == flags[first_set(flags)]);
        }
    }
}

/// The store of an earlier tool that is found among some places is the first that is there;
/// none is found exactly where none is there.
pub proof fn law_first_store_that_is_there(candidates: Seq<(PathBuf, bool)>, i: int)
    requires
        0 <= i < candidates.len(),
    ensures
        candidates[i].1 ==> first_set(candidates) <= i && candidates[first_set(candidates)].1,
        candidates[i].1 && (forall|j: int| 0 <= j < i ==> !(#[trigger] candidates[j]).1)
            ==> first_set(candidates) == i,
        first_set(candidates) >= candidates.len() ==> !candidates[i].1,
{
    lemma_first_set(candidates);
    if candidates[i].1 && (forall|j: int| 0 <= j < i ==> !(#[trigger] candidates[j]).1) {
        let first = first_set(candidates);
        if first < i {
            assert(!candidates[first].1);
        }
    }
}

/// Where an earlier tool may have left its accounts: on macOS in the library of the user, on
/// another Unix in the data directory, the named one first, and nowhere else.
pub proof fn law_places_of_an_earlier_tool(home: Seq<Seq<char>>, data_home: PathBuf)
    ensures
        legacy_places(home, Platform::MacOs, None) == seq![
            home + seq![
                "Library"@,
                "Application Support"@,
                "com.carry.codex-tools"@,
                "accounts.json"@,
            ],
        ],
        legacy_places(home, Platform::OtherUnix, None) == seq![
            home + seq![".local"@, "share"@, "com.carry.codex-tools"@, "accounts.json"@],
        ],
        legacy_places(home, Platform::OtherUnix, Some(data_home)).len() == 2,
        legacy_places(home, Platform::OtherUnix, Some(data_home))[0] == path_components(data_home)
            + seq!["com.carry.codex-tools"@, "accounts.json"@],
        legacy_places(home, Platform::OtherUnix, Some(data_home))[1] == home + seq![
            ".local"@,
            "share"@,
            "com.carry.codex-tools"@,
            "accounts.json"@,
        ],
        legacy_places(home, Platform::Other, Some(data_home)).len() == 0,
{
    assert(legacy_places(home, Platform::MacOs, None)[0] =~= home + seq![
        "Library"@,
        "Application Support"@,
        "com.carry.codex-tools"@,
        "accounts.json"@,
    ]);
    assert(legacy_places(home, Platform::OtherUnix, None)[0] =~= home + seq![
        ".local"@,
        "share"@,
        "com.carry.codex-tools"@,
        "accounts.json"@,
    ]);
    assert(legacy_places(home, Platform::OtherUnix, Some(data_home))[0] =~= path_components(
        data_home,
    ) + seq!["com.carry.codex-tools"@, "accounts.json"@]);
    assert(legacy_places(home, Platform::OtherUnix, Some(data_home))[1] =~= home + seq![
        ".local"@,
        "share"@,
        "com.carry.codex-tools"@,
        "accounts.json"@,
    ]);
    assert(legacy_places(home, Platform::MacOs, None) =~= seq![
        home + seq![
            "Library"@,
            "Application Support"@,
            "com.carry.codex-tools"@,
            "accounts.json"@,
        ],
    ]);
    assert(legacy_places(home, Platform::OtherUnix, None) =~= seq![
        home + seq![".local"@, "share"@, "com.carry.codex-tools"@, "accounts.json"@],
    ]);
}

/// The command is looked for under its name in each directory, in their order.
pub proof fn law_command_is_looked_for_in_each_directory(dirs: Seq<Seq<Seq<char>>>, i: int)
    requires
        0 <= i < dirs.len(),
    ensures
        codex_in(dirs).len() == dirs.len(),
        codex_in(dirs)[i] == dirs[i] + seq!["codex"@],
{
    assert(codex_in(dirs)[i] =~= dirs[i] + seq!["codex"@]);
}

/// Under a home directory the command is looked for first where users keep their programs, and
/// then where the usual tools put it.
pub proof fn law_directories_under_home(home: Seq<Seq<char>>)
    ensures
        home_places(home).len() == 7,
        home_places(home)[0] == home + seq![".local"@, "bin"@],
        home_places(home)[1] == home + seq![".npm-global"@, "bin"@],
        home_places(home)[2] == home + seq![".volta"@, "bin"@],
        home_places(home)[3] == home + seq![".asdf"@, "shims"@],
        home_places(home)[4] == home + seq![".pnpm"@],
        home_places(home)[5] == home + seq!["Library"@, "pnpm"@],
        home_places(home)[6] == home + seq!["bin"@],
{
    assert(home_places(home)[0] =~= home + seq![".local"@, "bin"@]);
    assert(home_places(home)[1] =~= home + seq![".npm-global"@, "bin"@]);
    assert(home_places(home)[2] =~= home + seq![".volta"@, "bin"@]);
    assert(home_places(home)[3] =~= home + seq![".asdf"@, "shims"@]);
    assert(home_places(home)[4] =~= home + seq![".pnpm"@]);
    assert(home_places(home)[5] =~= home + seq!["Library"@, "pnpm"@]);
    assert(home_places(home)[6] =~= home + seq!["bin"@]);
}

/// The answer that stands in for the service is the last one that was set for the account, and
/// there is none where none was set.
pub proof fn law_last_answer_counts(
    answers: Seq<(String, MockUsageResponse)>,
    account_id: Seq<char>,
    k: int,
)
    requires
        0 <= k < answers.len(),
    ensures
        answers[k].0@ == account_id && (forall|j: int|
            k < j < answers.len() ==> (#[trigger] answers[j]).0@ != account_id) ==> mocked(
            answers,
            account_id,
        ) == Some(answers[k].1),
        mocked(answers, account_id) is None ==> answers[k].0@ != account_id,
    decreases answers.len(),
{
    if answers.last().0@ != account_id {
        let rest = answers.drop_last();
        if k < rest.len() {
            law_last_answer_counts(rest, account_id, k);
            if forall|j: int| k < j < answers.len() ==> (#[trigger] answers[j]).0@ != account_id {
                assert forall|j: int| k < j < rest.len() implies (#[trigger] rest[j]).0@
                    != account_id by {
                    assert(rest[j] == answers[j]);
                }
            }
        }
    } else if k < answers.len() - 1 {
        assert(answers[answers.len() - 1].0@ == account_id);
    }
}

/// An answer that stands in for the service is handed back as it was set.
pub proof fn law_answers_are_handed_back(
    r: Option<Result<UsageSnapshot, String>>,
    answer: Option<MockUsageResponse>,
)
    requires
        is_mocked_result(r, answer),
    ensures
        r is None <==> answer is None,
        answer is Some && answer->0 is Snapshot ==> r == Some(
            Ok::<UsageSnapshot, String>(answer->0->Snapshot_0),
        ),
        answer is Some && answer->0 is Error ==> r == Some(
            Err::<UsageSnapshot, String>(answer->0->Error_0),
        ),
{
}

} // verus!
