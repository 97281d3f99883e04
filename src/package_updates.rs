//! The official-repository side: the list of upgradable packages, the two
//! batched metadata listings, and their merge into update records.
use vstd::prelude::*;
use crate::models::{opt_view, PackageUpdate, UpdateError};
use crate::size::{calculate_size_difference, size_delta};
use crate::text::{
    chars_of, contains, contains_str, copy_range, find_char, index_of, is_space, is_space_char,
    lemma_spans_shape, lemma_words_concat, lemma_words_word, lines, no_space, range_is, span_view, spans, split_lines, starts_with,
    starts_with_str, string_from, trim, trimmed, views, word_spans, words,
};

verus! {

/// One line of the upgradable list: a package, its installed version and
/// the version on offer.
#[derive(Clone, Debug)]
pub struct UpgradeLine {
    pub name: String,
    pub current_version: String,
    pub new_version: String,
}

pub open spec fn upgrade_view(u: UpgradeLine) -> (Seq<char>, Seq<char>, Seq<char>) {
    (u.name@, u.current_version@, u.new_version@)
}

pub open spec fn upgrade_views(s: Seq<UpgradeLine>) -> Seq<(Seq<char>, Seq<char>, Seq<char>)> {
    s.map_values(|u: UpgradeLine| upgrade_view(u))
}

/// A line `name current -> new ...`: it starts with a non-blank, has at
/// least four words, and its third word is `->`.
pub open spec fn upgrade_of(l: Seq<char>) -> Option<(Seq<char>, Seq<char>, Seq<char>)> {
    if l.len() > 0 && !is_space(l[0]) && words(l).len() >= 4 && words(l)[2] == "->"@ {
        Some((words(l)[0], words(l)[1], words(l)[3]))
    } else {
        None
    }
}

/// The records of the lines that parse, in order; the others are skipped.
pub open spec fn upgrades_in(ls: Seq<Seq<char>>) -> Seq<(Seq<char>, Seq<char>, Seq<char>)>
    decreases ls.len(),
{
    if ls.len() == 0 {
        seq![]
    } else {
        match upgrade_of(ls.last()) {
            Some(u) => upgrades_in(ls.drop_last()).push(u),
            None => upgrades_in(ls.drop_last()),
        }
    }
}

/// Parses one line of the upgradable list (see `upgrade_of`).
pub fn parse_update_line(l: &Vec<char>) -> (r: Option<UpgradeLine>)
    ensures
        match r {
            Some(u) => upgrade_of(l@) == Some(upgrade_view(u)),
            None => upgrade_of(l@) is None,
        },
{
    if l.len() == 0 || is_space_char(l[0]) {
        return None;
    }
    let sp = word_spans(l);
    proof {
        lemma_spans_shape(l@);
    }
    if sp.len() < 4 {
        return None;
    }
    assert(span_view(sp@)[0] == spans(l@)[0]);
    assert(span_view(sp@)[1] == spans(l@)[1]);
    assert(span_view(sp@)[2] == spans(l@)[2]);
    assert(span_view(sp@)[3] == spans(l@)[3]);
    assert(words(l@)[2] == l@.subrange(sp@[2].0 as int, sp@[2].1 as int));
    if !range_is(l, sp[2].0, sp[2].1, "->") {
        return None;
    }
    let name = string_from(l, sp[0].0, sp[0].1);
    let current_version = string_from(l, sp[1].0, sp[1].1);
    let new_version = string_from(l, sp[3].0, sp[3].1);
    Some(UpgradeLine { name, current_version, new_version })
}

/// Parses the whole upgradable list; lines that do not parse are skipped.
pub fn parse_upgrade_list(output: &str) -> (r: Vec<UpgradeLine>)
    ensures
        upgrade_views(r@) == upgrades_in(lines(output@)),
{
    let text = chars_of(output);
    let ls = split_lines(&text);
    let mut r: Vec<UpgradeLine> = Vec::new();
    let mut i: usize = 0;
    while i < ls.len()
        invariant
            i <= ls@.len(),
            views(ls@) == lines(text@),
            upgrade_views(r@) == upgrades_in(views(ls@).subrange(0, i as int)),
        decreases ls@.len() - i,
    {
        let ghost pre = views(ls@).subrange(0, i as int);
        let ghost next = views(ls@).subrange(0, i + 1);
        assert(next.drop_last() =~= pre);
        assert(next.last() == ls@[i as int]@);
        let ghost old_r = r@;
        match parse_update_line(&ls[i]) {
            Some(u) => {
                r.push(u);
                assert(upgrade_views(r@) =~= upgrade_views(old_r).push(upgrade_view(u)));
            },
            None => {},
        }
        i += 1;
    }
    assert(views(ls@).subrange(0, ls@.len() as int) =~= views(ls@));
    r
}

/// What a failed upgradable query means: nothing to upgrade when its error
/// output says so or both outputs are blank.
pub open spec fn benign_query_failure(stdout: Seq<char>, stderr: Seq<char>) -> bool {
    contains(stderr, "no packages to upgrade"@) || (trim(stderr).len() == 0 && trim(stdout).len()
        == 0)
}

pub open spec fn query_failure_text(stderr: Seq<char>) -> Seq<char> {
    "pacman -Qu failed: "@ + if stderr.len() > 0 {
        stderr
    } else {
        "Exit code 1 with no output"@
    }
}

/// The packages with a pending upgrade, from the outcome of the
/// upgradable query: its exit status and both outputs.
pub fn upgradable_packages(success: bool, stdout: &str, stderr: &str) -> (r: Result<
    Vec<UpgradeLine>,
    UpdateError,
>)
    ensures
        success ==> r is Ok && upgrade_views(r->Ok_0@) == upgrades_in(lines(stdout@)),
        !success && benign_query_failure(stdout@, stderr@) ==> r is Ok && r->Ok_0@.len() == 0,
        !success && !benign_query_failure(stdout@, stderr@) ==> r is Err && r->Err_0
            is CommandFailed && r->Err_0->CommandFailed_0@ == query_failure_text(stderr@),
{
    if success {
        return Ok(parse_upgrade_list(stdout));
    }
    let err = chars_of(stderr);
    let out = chars_of(stdout);
    let err_t = trimmed(&err);
    let out_t = trimmed(&out);
    if contains_str(&err, "no packages to upgrade") || (err_t.len() == 0 && out_t.len() == 0) {
        return Ok(Vec::new());
    }
    let mut msg = String::from_str("pacman -Qu failed: ");
    if err.len() > 0 {
        msg.append(stderr);
    } else {
        msg.append("Exit code 1 with no output");
    }
    Err(UpdateError::CommandFailed(msg))
}

/// The value after the first colon of a field line, trimmed; `"Unknown"`
/// when there is no colon.
pub open spec fn field_value(s: Seq<char>) -> Seq<char> {
    let k = index_of(s, ':');
    if k >= 0 {
        trim(s.subrange(k + 1, s.len() as int))
    } else {
        "Unknown"@
    }
}

fn field_value_exec(v: &Vec<char>) -> (r: String)
    ensures
        r@ == field_value(v@),
{
    let n = v.len();
    match find_char(v, ':') {
        Some(k) => {
            let rest = copy_range(v, k + 1, n);
            let t = trimmed(&rest);
            string_from(&t, 0, t.len())
        },
        None => String::from_str("Unknown"),
    }
}

/// The value of a `Label : value` line (see `field_value`).
pub fn extract_field_value(line: &str) -> (r: String)
    ensures
        r@ == field_value(line@),
{
    let v = chars_of(line);
    field_value_exec(&v)
}

/// The position of the first entry keyed `n`, or -1.
pub open spec fn find_key<V>(s: Seq<(Seq<char>, V)>, n: Seq<char>) -> int
    decreases s.len(),
{
    if s.len() == 0 {
        -1
    } else {
        let p = find_key(s.drop_last(), n);
        if p >= 0 {
            p
        } else if s.last().0 == n {
            s.len() - 1
        } else {
            -1
        }
    }
}

/// The value of the first entry keyed `n`, or `d`.
pub open spec fn lookup_or<V>(s: Seq<(Seq<char>, V)>, n: Seq<char>, d: V) -> V {
    let k = find_key(s, n);
    if k >= 0 {
        s[k].1
    } else {
        d
    }
}

pub proof fn lemma_find_key_prefix<V>(s: Seq<(Seq<char>, V)>, n: Seq<char>, m: int)
    requires
        0 <= m <= s.len(),
        find_key(s.subrange(0, m), n) >= 0,
    ensures
        find_key(s, n) == find_key(s.subrange(0, m), n),
    decreases s.len() - m,
{
    if m < s.len() {
        assert(s.subrange(0, m + 1).drop_last() =~= s.subrange(0, m));
        lemma_find_key_prefix(s, n, m + 1);
    } else {
        assert(s.subrange(0, m) =~= s);
    }
}

pub proof fn lemma_find_key_range<V>(s: Seq<(Seq<char>, V)>, n: Seq<char>)
    ensures
        -1 <= find_key(s, n) < s.len(),
        find_key(s, n) >= 0 ==> s[find_key(s, n)].0 == n,
    decreases s.len(),
{
    if s.len() > 0 {
        lemma_find_key_range(s.drop_last(), n);
    }
}

pub open spec fn no_description() -> Seq<char> {
    "No description available"@
}

/// Description and repository of one package, from the remote listing.
#[derive(Clone, Debug)]
pub struct PackageInfo {
    pub name: String,
    pub description: String,
    pub repository: String,
}

/// A package name with the size text given for it.
#[derive(Clone, Debug)]
pub struct SizeEntry {
    pub name: String,
    pub size: String,
}

/// What the batched remote listing yields.
#[derive(Clone, Debug)]
pub struct RepositoryInfo {
    pub packages: Vec<PackageInfo>,
    pub sizes: Vec<SizeEntry>,
}

pub open spec fn info_views(v: Seq<PackageInfo>) -> Seq<(Seq<char>, (Seq<char>, Seq<char>))> {
    v.map_values(|p: PackageInfo| (p.name@, (p.description@, p.repository@)))
}

pub open spec fn size_views(v: Seq<SizeEntry>) -> Seq<(Seq<char>, Seq<char>)> {
    v.map_values(|p: SizeEntry| (p.name@, p.size@))
}

/// The state of the scan of the remote listing.
pub struct RepoScan {
    pub infos: Seq<(Seq<char>, (Seq<char>, Seq<char>))>,
    pub sizes: Seq<(Seq<char>, Seq<char>)>,
    pub current: Option<Seq<char>>,
    pub description: Seq<char>,
    pub repository: Seq<char>,
}

pub open spec fn repo_start() -> RepoScan {
    RepoScan {
        infos: seq![],
        sizes: seq![],
        current: None,
        description: no_description(),
        repository: "Unknown"@,
    }
}

/// One line of the remote listing. A `Name` field opens a block unless that
/// name was already recorded; a blank line records the open block.
pub open spec fn repo_step(st: RepoScan, l: Seq<char>) -> RepoScan {
    let t = trim(l);
    if starts_with(t, "Repository"@) {
        RepoScan { repository: field_value(t), ..st }
    } else if starts_with(t, "Name"@) {
        let n = field_value(t);
        if find_key(st.infos, n) >= 0 {
            RepoScan { current: None, ..st }
        } else {
            RepoScan { current: Some(n), description: no_description(), ..st }
        }
    } else if starts_with(t, "Description"@) {
        if st.current is Some {
            RepoScan { description: field_value(t), ..st }
        } else {
            st
        }
    } else if starts_with(t, "Installed Size"@) {
        match st.current {
            Some(n) => if find_key(st.sizes, n) < 0 {
                RepoScan { sizes: st.sizes.push((n, field_value(t))), ..st }
            } else {
                st
            },
            None => st,
        }
    } else if t.len() == 0 && st.current is Some {
        RepoScan {
            infos: st.infos.push((st.current->0, (st.description, st.repository))),
            current: None,
            ..st
        }
    } else {
        st
    }
}

pub open spec fn repo_scan(ls: Seq<Seq<char>>) -> RepoScan
    decreases ls.len(),
{
    if ls.len() == 0 {
        repo_start()
    } else {
        repo_step(repo_scan(ls.drop_last()), ls.last())
    }
}

/// The scan's records once the input ends: a block still open is recorded.
pub open spec fn repo_finish(st: RepoScan) -> Seq<(Seq<char>, (Seq<char>, Seq<char>))> {
    match st.current {
        Some(n) => if find_key(st.infos, n) < 0 {
            st.infos.push((n, (st.description, st.repository)))
        } else {
            st.infos
        },
        None => st.infos,
    }
}

fn find_info(v: &Vec<PackageInfo>, n: &String) -> (r: Option<usize>)
    ensures
        match r {
            Some(k) => find_key(info_views(v@), n@) == k as int && k < v@.len(),
            None => find_key(info_views(v@), n@) == -1,
        },
{
    let mut i: usize = 0;
    while i < v.len()
        invariant
            i <= v@.len(),
            find_key(info_views(v@).subrange(0, i as int), n@) == -1,
        decreases v@.len() - i,
    {
        assert(info_views(v@).subrange(0, i + 1).drop_last() =~= info_views(v@).subrange(
            0,
            i as int,
        ));
        if v[i].name == *n {
            proof {
                lemma_find_key_prefix(info_views(v@), n@, i + 1);
            }
            return Some(i);
        }
        i += 1;
    }
    assert(info_views(v@).subrange(0, v@.len() as int) =~= info_views(v@));
    None
}

fn find_size(v: &Vec<SizeEntry>, n: &String) -> (r: Option<usize>)
    ensures
        match r {
            Some(k) => find_key(size_views(v@), n@) == k as int && k < v@.len(),
            None => find_key(size_views(v@), n@) == -1,
        },
{
    let mut i: usize = 0;
    while i < v.len()
        invariant
            i <= v@.len(),
            find_key(size_views(v@).subrange(0, i as int), n@) == -1,
        decreases v@.len() - i,
    {
        assert(size_views(v@).subrange(0, i + 1).drop_last() =~= size_views(v@).subrange(
            0,
            i as int,
        ));
        if v[i].name == *n {
            proof {
                lemma_find_key_prefix(size_views(v@), n@, i + 1);
            }
            return Some(i);
        }
        i += 1;
    }
    assert(size_views(v@).subrange(0, v@.len() as int) =~= size_views(v@));
    None
}

/// Scans the batched remote listing: for each package, the description and
/// repository of the first block that names it, and the first size given.
pub fn get_batch_repository_info(info: &str) -> (r: RepositoryInfo)
    ensures
        info_views(r.packages@) == repo_finish(repo_scan(lines(info@))),
        size_views(r.sizes@) == repo_scan(lines(info@)).sizes,
{
    let text = chars_of(info);
    let ls = split_lines(&text);
    let mut infos: Vec<PackageInfo> = Vec::new();
    let mut sizes: Vec<SizeEntry> = Vec::new();
    let mut current: Option<String> = None;
    let mut description = String::from_str("No description available");
    let mut repository = String::from_str("Unknown");
    let mut i: usize = 0;
    while i < ls.len()
        invariant
            i <= ls@.len(),
            views(ls@) == lines(text@),
            info_views(infos@) == repo_scan(views(ls@).subrange(0, i as int)).infos,
            size_views(sizes@) == repo_scan(views(ls@).subrange(0, i as int)).sizes,
            opt_view(current) == repo_scan(views(ls@).subrange(0, i as int)).current,
            description@ == repo_scan(views(ls@).subrange(0, i as int)).description,
            repository@ == repo_scan(views(ls@).subrange(0, i as int)).repository,
        decreases ls@.len() - i,
    {
        let ghost pre = views(ls@).subrange(0, i as int);
        let ghost next = views(ls@).subrange(0, i + 1);
        assert(next.drop_last() =~= pre);
        assert(next.last() == ls@[i as int]@);
        let t = trimmed(&ls[i]);
        if starts_with_str(&t, "Repository") {
            repository = field_value_exec(&t);
        } else if starts_with_str(&t, "Name") {
            let n = field_value_exec(&t);
            match find_info(&infos, &n) {
                Some(_) => {
                    current = None;
                },
                None => {
                    current = Some(n);
                    description = String::from_str("No description available");
                },
            }
        } else if starts_with_str(&t, "Description") {
            if current.is_some() {
                description = field_value_exec(&t);
            }
        } else if starts_with_str(&t, "Installed Size") {
            match &current {
                Some(n) => {
                    if find_size(&sizes, n).is_none() {
                        let ghost old_sizes = sizes@;
                        let value = field_value_exec(&t);
                        sizes.push(SizeEntry { name: n.clone(), size: value });
                        assert(size_views(sizes@) =~= size_views(old_sizes).push(
                            (n@, field_value(t@)),
                        ));
                    }
                },
                None => {},
            }
        } else if t.len() == 0 && current.is_some() {
            let ghost old_infos = infos@;
            let n = current.unwrap();
            infos.push(
                PackageInfo {
                    name: n,
                    description: description.clone(),
                    repository: repository.clone(),
                },
            );
            current = None;
            assert(info_views(infos@) =~= info_views(old_infos).push(
                (n@, (description@, repository@)),
            ));
        }
        i += 1;
    }
    assert(views(ls@).subrange(0, ls@.len() as int) =~= views(ls@));
    match current {
        Some(n) => {
            if find_info(&infos, &n).is_none() {
                let ghost old_infos = infos@;
                let ghost nv = n@;
                let ghost dv = description@;
                let ghost rv = repository@;
                infos.push(PackageInfo { name: n, description, repository });
                assert(info_views(infos@) =~= info_views(old_infos).push((nv, (dv, rv))));
            }
        },
        None => {},
    }
    RepositoryInfo { packages: infos, sizes }
}

/// The state of the scan of the local listing.
pub struct InstalledScan {
    pub sizes: Seq<(Seq<char>, Seq<char>)>,
    pub current: Option<Seq<char>>,
}

/// `s` with the value of key `n` set to `v` (`HashMap::insert`).
pub open spec fn upsert(s: Seq<(Seq<char>, Seq<char>)>, n: Seq<char>, v: Seq<char>) -> Seq<
    (Seq<char>, Seq<char>),
> {
    let k = find_key(s, n);
    if k >= 0 {
        s.update(k, (n, v))
    } else {
        s.push((n, v))
    }
}

/// One line of the local listing: a `Name` field names the package that the
/// next `Installed Size` field belongs to; a later size replaces an earlier.
pub open spec fn installed_step(st: InstalledScan, l: Seq<char>) -> InstalledScan {
    let t = trim(l);
    if starts_with(t, "Name"@) {
        InstalledScan { current: Some(field_value(t)), ..st }
    } else if starts_with(t, "Installed Size"@) {
        match st.current {
            Some(n) => InstalledScan { sizes: upsert(st.sizes, n, field_value(t)), ..st },
            None => st,
        }
    } else {
        st
    }
}

pub open spec fn installed_scan(ls: Seq<Seq<char>>) -> InstalledScan
    decreases ls.len(),
{
    if ls.len() == 0 {
        InstalledScan { sizes: seq![], current: None }
    } else {
        installed_step(installed_scan(ls.drop_last()), ls.last())
    }
}

/// Scans the batched local listing for each package's installed size.
pub fn get_batch_installed_sizes(info: &str) -> (r: Vec<SizeEntry>)
    ensures
        size_views(r@) == installed_scan(lines(info@)).sizes,
{
    let text = chars_of(info);
    let ls = split_lines(&text);
    let mut sizes: Vec<SizeEntry> = Vec::new();
    let mut current: Option<String> = None;
    let mut i: usize = 0;
    while i < ls.len()
        invariant
            i <= ls@.len(),
            views(ls@) == lines(text@),
            size_views(sizes@) == installed_scan(views(ls@).subrange(0, i as int)).sizes,
            opt_view(current) == installed_scan(views(ls@).subrange(0, i as int)).current,
        decreases ls@.len() - i,
    {
        let ghost pre = views(ls@).subrange(0, i as int);
        let ghost next = views(ls@).subrange(0, i + 1);
        assert(next.drop_last() =~= pre);
        assert(next.last() == ls@[i as int]@);
        let t = trimmed(&ls[i]);
        if starts_with_str(&t, "Name") {
            current = Some(field_value_exec(&t));
        } else if starts_with_str(&t, "Installed Size") {
            match &current {
                Some(n) => {
                    let ghost old_sizes = sizes@;
                    let value = field_value_exec(&t);
                    match find_size(&sizes, n) {
                        Some(k) => {
                            sizes.set(k, SizeEntry { name: n.clone(), size: value });
                            assert(size_views(sizes@) =~= size_views(old_sizes).update(
                                k as int,
                                (n@, field_value(t@)),
                            ));
                        },
                        None => {
                            sizes.push(SizeEntry { name: n.clone(), size: value });
                            assert(size_views(sizes@) =~= size_views(old_sizes).push(
                                (n@, field_value(t@)),
                            ));
                        },
                    }
                },
                None => {},
            }
        }
        i += 1;
    }
    assert(views(ls@).subrange(0, ls@.len() as int) =~= views(ls@));
    sizes
}

/// `p` is the record for upgrade `u`, with description and repository from
/// `infos` (defaults when absent) and the size change from the installed
/// size to the repository's size ("Unknown" when absent).
pub open spec fn is_merged_update(
    p: PackageUpdate,
    u: (Seq<char>, Seq<char>, Seq<char>),
    infos: Seq<(Seq<char>, (Seq<char>, Seq<char>))>,
    repo_sizes: Seq<(Seq<char>, Seq<char>)>,
    installed: Seq<(Seq<char>, Seq<char>)>,
) -> bool {
    let info = lookup_or(infos, u.0, (no_description(), "Unknown"@));
    &&& p.name@ == u.0
    &&& p.current_version@ == u.1
    &&& p.new_version@ == u.2
    &&& p.selected
    &&& p.description@ == info.0
    &&& p.repository@ == info.1
    &&& p.size == size_delta(
        lookup_or(installed, u.0, "Unknown"@),
        lookup_or(repo_sizes, u.0, "Unknown"@),
    )
}

/// One record per upgrade, in order, completed from both listings.
pub fn merge_package_updates(
    upgrades: &Vec<UpgradeLine>,
    repo: &RepositoryInfo,
    installed: &Vec<SizeEntry>,
) -> (r: Vec<PackageUpdate>)
    ensures
        r@.len() == upgrades@.len(),
        forall|k: int|
            0 <= k < r@.len() ==> is_merged_update(
                #[trigger] r@[k],
                upgrade_view(upgrades@[k]),
                info_views(repo.packages@),
                size_views(repo.sizes@),
                size_views(installed@),
            ),
{
    let mut r: Vec<PackageUpdate> = Vec::new();
    let mut i: usize = 0;
    while i < upgrades.len()
        invariant
            i <= upgrades@.len(),
            r@.len() == i,
            forall|k: int|
                0 <= k < i ==> is_merged_update(
                    #[trigger] r@[k],
                    upgrade_view(upgrades@[k]),
                    info_views(repo.packages@),
                    size_views(repo.sizes@),
                    size_views(installed@),
                ),
        decreases upgrades@.len() - i,
    {
        let u = &upgrades[i];
        proof {
            lemma_find_key_range(info_views(repo.packages@), u.name@);
            lemma_find_key_range(size_views(repo.sizes@), u.name@);
            lemma_find_key_range(size_views(installed@), u.name@);
        }
        let (description, repository) = match find_info(&repo.packages, &u.name) {
            Some(k) => (repo.packages[k].description.clone(), repo.packages[k].repository.clone()),
            None => (String::from_str("No description available"), String::from_str("Unknown")),
        };
        let current_size = match find_size(installed, &u.name) {
            Some(k) => installed[k].size.clone(),
            None => String::from_str("Unknown"),
        };
        let new_size = match find_size(&repo.sizes, &u.name) {
            Some(k) => repo.sizes[k].size.clone(),
            None => String::from_str("Unknown"),
        };
        let size = calculate_size_difference(current_size.as_str(), new_size.as_str());
        let p = PackageUpdate {
            name: u.name.clone(),
            new_version: u.new_version.clone(),
            current_version: u.current_version.clone(),
            description,
            repository,
            selected: true,
            size,
        };
        r.push(p);
        i += 1;
    }
    r
}

/// The arguments of a batched metadata query: `flag`, then each package name.
pub fn batch_query_args(flag: &str, upgrades: &Vec<UpgradeLine>) -> (r: Vec<String>)
    ensures
        r@.len() == upgrades@.len() + 1,
        r@[0]@ == flag@,
        forall|k: int| 0 <= k < upgrades@.len() ==> r@[k + 1]@ == #[trigger] upgrades@[k].name@,
{
    let mut r: Vec<String> = Vec::new();
    r.push(String::from_str(flag));
    let mut i: usize = 0;
    while i < upgrades.len()
        invariant
            i <= upgrades@.len(),
            r@.len() == i + 1,
            r@[0]@ == flag@,
            forall|k: int| 0 <= k < i ==> r@[k + 1]@ == #[trigger] upgrades@[k].name@,
        decreases upgrades@.len() - i,
    {
        r.push(upgrades[i].name.clone());
        i += 1;
    }
    r
}

/// A line `name current -> new`, single-spaced, whose three fields are
/// non-empty and free of whitespace, yields exactly the record
/// (name, current, new).
pub proof fn lemma_valid_upgrade_line(name: Seq<char>, current: Seq<char>, new: Seq<char>)
    requires
        name.len() > 0,
        current.len() > 0,
        new.len() > 0,
        no_space(name),
        no_space(current),
        no_space(new),
    ensures
        upgrade_of(name + " "@ + current + " -> "@ + new) == Some((name, current, new)),
{
    reveal_strlit(" ");
    reveal_strlit(" -> ");
    reveal_strlit("->");
    let arrow = "->"@;
    let tail = arrow + seq![' '] + new;
    let mid = current + seq![' '] + tail;
    let l = name + seq![' '] + mid;
    assert(name + " "@ + current + " -> "@ + new =~= l);
    assert(no_space(arrow)) by {
        assert forall|i: int| 0 <= i < arrow.len() implies !is_space(#[trigger] arrow[i]) by {
            assert(arrow[i] == '-' || arrow[i] == '>');
        }
    }
    lemma_words_word(arrow);
    lemma_words_word(new);
    lemma_words_word(current);
    lemma_words_word(name);
    lemma_words_concat(arrow, new);
    lemma_words_concat(current, tail);
    lemma_words_concat(name, mid);
    assert(words(l) =~= seq![name, current, arrow, new]);
    assert(l[0] == name[0]);
}

/// Lines are parsed one by one: the records of two stretches of lines are
/// those of the first followed by those of the second, so a line that does
/// not parse drops out alone and never stops the lines after it.
pub proof fn lemma_upgrades_concat(a: Seq<Seq<char>>, b: Seq<Seq<char>>)
    ensures
        upgrades_in(a + b) == upgrades_in(a) + upgrades_in(b),
    decreases b.len(),
{
    if b.len() == 0 {
        assert(a + b =~= a);
        assert(upgrades_in(a) + upgrades_in(b) =~= upgrades_in(a));
    } else {
        assert((a + b).drop_last() =~= a + b.drop_last());
        assert((a + b).last() == b.last());
        lemma_upgrades_concat(a, b.drop_last());
        match upgrade_of(b.last()) {
            Some(u) => {
                assert(upgrades_in(a) + upgrades_in(b.drop_last()).push(u) =~= (upgrades_in(a)
                    + upgrades_in(b.drop_last())).push(u));
            },
            None => {},
        }
    }
}

/// The remote scan only ever appends records and sizes.
pub proof fn lemma_repo_scan_grows(a: Seq<Seq<char>>, b: Seq<Seq<char>>)
    ensures
        repo_scan(a).infos.len() <= repo_scan(a + b).infos.len(),
        repo_scan(a + b).infos.subrange(0, repo_scan(a).infos.len() as int) == repo_scan(a).infos,
        repo_scan(a).sizes.len() <= repo_scan(a + b).sizes.len(),
        repo_scan(a + b).sizes.subrange(0, repo_scan(a).sizes.len() as int) == repo_scan(a).sizes,
    decreases b.len(),
{
    if b.len() == 0 {
        assert(a + b =~= a);
        assert(repo_scan(a).infos.subrange(0, repo_scan(a).infos.len() as int) =~= repo_scan(
            a,
        ).infos);
        assert(repo_scan(a).sizes.subrange(0, repo_scan(a).sizes.len() as int) =~= repo_scan(
            a,
        ).sizes);
    } else {
        assert((a + b).drop_last() =~= a + b.drop_last());
        lemma_repo_scan_grows(a, b.drop_last());
        let st = repo_scan(a + b.drop_last());
        let m = repo_scan(a).infos.len() as int;
        let k = repo_scan(a).sizes.len() as int;
        assert forall|x: (Seq<char>, (Seq<char>, Seq<char>))| #[trigger]
            st.infos.push(x).subrange(0, m) =~= st.infos.subrange(0, m) by {}
        assert forall|x: (Seq<char>, Seq<char>)| #[trigger]
            st.sizes.push(x).subrange(0, k) =~= st.sizes.subrange(0, k) by {}
    }
}

/// First seen wins: once a package's block has been recorded, no later
/// line changes its description or repository; once a size has been
/// recorded for a package, no later line changes it.
pub proof fn lemma_first_block_wins(a: Seq<Seq<char>>, b: Seq<Seq<char>>, n: Seq<char>)
    ensures
        find_key(repo_scan(a).infos, n) >= 0 ==> find_key(repo_finish(repo_scan(a + b)), n)
            == find_key(repo_scan(a).infos, n) && repo_finish(repo_scan(a + b))[find_key(
            repo_scan(a).infos,
            n,
        )] == repo_scan(a).infos[find_key(repo_scan(a).infos, n)],
        find_key(repo_scan(a).sizes, n) >= 0 ==> find_key(repo_scan(a + b).sizes, n) == find_key(
            repo_scan(a).sizes,
            n,
        ) && repo_scan(a + b).sizes[find_key(repo_scan(a).sizes, n)] == repo_scan(a).sizes[find_key(
            repo_scan(a).sizes,
            n,
        )],
{
    lemma_repo_scan_grows(a, b);
    let st = repo_scan(a + b);
    let fin = repo_finish(st);
    let m = repo_scan(a).infos.len() as int;
    assert(fin.subrange(0, m) == repo_scan(a).infos) by {
        assert forall|x: (Seq<char>, (Seq<char>, Seq<char>))| #[trigger]
            st.infos.push(x).subrange(0, m) =~= st.infos.subrange(0, m) by {}
    }
    lemma_find_key_range(repo_scan(a).infos, n);
    lemma_find_key_range(repo_scan(a).sizes, n);
    if find_key(repo_scan(a).infos, n) >= 0 {
        lemma_find_key_prefix(fin, n, m);
        assert(fin[find_key(repo_scan(a).infos, n)] == fin.subrange(0, m)[find_key(
            repo_scan(a).infos,
            n,
        )]);
    }
    if find_key(repo_scan(a).sizes, n) >= 0 {
        let k = repo_scan(a).sizes.len() as int;
        lemma_find_key_prefix(st.sizes, n, k);
        assert(st.sizes[find_key(repo_scan(a).sizes, n)] == st.sizes.subrange(0, k)[find_key(
            repo_scan(a).sizes,
            n,
        )]);
    }
}

} // verus!
