//! The AUR side: parsing a helper's list of pending updates, and the
//! command line that installs AUR packages without building as root.
use vstd::prelude::*;
use crate::aur_managers::{arg_views, command_of, install_args_of, AurManagers};
use crate::models::{opt_view, PackageUpdate, UpdateError};
use crate::settings::string_views;
use crate::text::{
    chars_of, contains, contains_str, lemma_spans_shape, lines, range_is, span_view, spans,
    split_lines, string_from, views, word_spans, words,
};

verus! {

/// The repository label of every AUR record.
pub const AUR_NAME: &'static str = "AUR";

/// A default-family line: at least four words, the second-to-last `->`;
/// name, current version and new version are the first, second and last.
pub open spec fn standard_aur_line(l: Seq<char>) -> Option<(Seq<char>, Seq<char>, Seq<char>)> {
    let w = words(l);
    if w.len() >= 4 && w[w.len() - 2] == "->"@ {
        Some((w[0], w[1], w[w.len() - 1]))
    } else {
        None
    }
}

/// A pamac line: at least three words: name, current version, new version.
pub open spec fn pamac_line(l: Seq<char>) -> Option<(Seq<char>, Seq<char>, Seq<char>)> {
    let w = words(l);
    if w.len() >= 3 {
        Some((w[0], w[1], w[2]))
    } else {
        None
    }
}

pub open spec fn aur_line(l: Seq<char>, pamac: bool) -> Option<(Seq<char>, Seq<char>, Seq<char>)> {
    if pamac {
        pamac_line(l)
    } else {
        standard_aur_line(l)
    }
}

pub open spec fn aur_lines(ls: Seq<Seq<char>>, pamac: bool) -> Seq<(Seq<char>, Seq<char>, Seq<char>)>
    decreases ls.len(),
{
    if ls.len() == 0 {
        seq![]
    } else {
        match aur_line(ls.last(), pamac) {
            Some(u) => aur_lines(ls.drop_last(), pamac).push(u),
            None => aur_lines(ls.drop_last(), pamac),
        }
    }
}

/// `p` is the AUR record of `u`: repository `AUR`, selected, a generated
/// description, and no size information.
pub open spec fn is_aur_update(p: PackageUpdate, u: (Seq<char>, Seq<char>, Seq<char>)) -> bool {
    &&& p.repository@ == "AUR"@
    &&& p.selected
    &&& p.name@ == u.0
    &&& p.description@ == "AUR package: "@ + u.0
    &&& p.current_version@ == u.1
    &&& p.new_version@ == u.2
    &&& p.size == 0
}

fn aur_record(l: &Vec<char>, name: (usize, usize), cur: (usize, usize), new: (usize, usize)) -> (r:
    PackageUpdate)
    requires
        name.0 <= name.1 <= l@.len(),
        cur.0 <= cur.1 <= l@.len(),
        new.0 <= new.1 <= l@.len(),
    ensures
        is_aur_update(
            r,
            (
                l@.subrange(name.0 as int, name.1 as int),
                l@.subrange(cur.0 as int, cur.1 as int),
                l@.subrange(new.0 as int, new.1 as int),
            ),
        ),
{
    let package_name = string_from(l, name.0, name.1);
    let mut description = String::from_str("AUR package: ");
    description.append(package_name.as_str());
    PackageUpdate {
        repository: String::from_str(AUR_NAME),
        selected: true,
        name: package_name,
        description,
        current_version: string_from(l, cur.0, cur.1),
        new_version: string_from(l, new.0, new.1),
        size: 0,
    }
}

/// Parses a default-family line (see `standard_aur_line`).
pub fn parse_standard_aur_line(l: &Vec<char>) -> (r: Option<PackageUpdate>)
    ensures
        match r {
            Some(p) => standard_aur_line(l@) is Some && is_aur_update(p, standard_aur_line(l@)->0),
            None => standard_aur_line(l@) is None,
        },
{
    let sp = word_spans(l);
    proof {
        lemma_spans_shape(l@);
    }
    let n = sp.len();
    if n < 4 {
        return None;
    }
    assert(span_view(sp@)[n - 2] == spans(l@)[n - 2]);
    if !range_is(l, sp[n - 2].0, sp[n - 2].1, "->") {
        return None;
    }
    assert(span_view(sp@)[0] == spans(l@)[0]);
    assert(span_view(sp@)[1] == spans(l@)[1]);
    assert(span_view(sp@)[n - 1] == spans(l@)[n - 1]);
    Some(aur_record(l, sp[0], sp[1], sp[n - 1]))
}

/// Parses a pamac line (see `pamac_line`).
pub fn parse_pamac_line(l: &Vec<char>) -> (r: Option<PackageUpdate>)
    ensures
        match r {
            Some(p) => pamac_line(l@) is Some && is_aur_update(p, pamac_line(l@)->0),
            None => pamac_line(l@) is None,
        },
{
    let sp = word_spans(l);
    proof {
        lemma_spans_shape(l@);
    }
    if sp.len() < 3 {
        return None;
    }
    assert(span_view(sp@)[0] == spans(l@)[0]);
    assert(span_view(sp@)[1] == spans(l@)[1]);
    assert(span_view(sp@)[2] == spans(l@)[2]);
    Some(aur_record(l, sp[0], sp[1], sp[2]))
}

/// The records of a helper's list of pending updates, in order; lines
/// that do not parse are skipped.
pub fn parse_aur_updates(output: &str, helper: &AurManagers) -> (r: Vec<PackageUpdate>)
    ensures
        r@.len() == aur_lines(lines(output@), *helper is PamacCli).len(),
        forall|k: int|
            0 <= k < r@.len() ==> is_aur_update(
                #[trigger] r@[k],
                aur_lines(lines(output@), *helper is PamacCli)[k],
            ),
{
    let pamac = match helper {
        AurManagers::PamacCli => true,
        _ => false,
    };
    let text = chars_of(output);
    let ls = split_lines(&text);
    let mut r: Vec<PackageUpdate> = Vec::new();
    let mut i: usize = 0;
    while i < ls.len()
        invariant
            i <= ls@.len(),
            pamac == (*helper is PamacCli),
            views(ls@) == lines(text@),
            text@ == output@,
            r@.len() == aur_lines(views(ls@).subrange(0, i as int), pamac).len(),
            forall|k: int|
                0 <= k < r@.len() ==> is_aur_update(
                    #[trigger] r@[k],
                    aur_lines(views(ls@).subrange(0, i as int), pamac)[k],
                ),
        decreases ls@.len() - i,
    {
        let ghost pre = views(ls@).subrange(0, i as int);
        let ghost next = views(ls@).subrange(0, i + 1);
        assert(next.drop_last() =~= pre);
        assert(next.last() == ls@[i as int]@);
        let parsed = if pamac {
            parse_pamac_line(&ls[i])
        } else {
            parse_standard_aur_line(&ls[i])
        };
        match parsed {
            Some(p) => {
                r.push(p);
            },
            None => {},
        }
        i += 1;
    }
    assert(views(ls@).subrange(0, ls@.len() as int) =~= views(ls@));
    r
}

/// A failed update check that only means there is nothing to update.
pub open spec fn benign_aur_failure(stdout: Seq<char>, stderr: Seq<char>) -> bool {
    contains(stderr, "nothing to do"@) || contains(stderr, "no packages"@) || stdout.len() == 0
}

/// The pending AUR updates, from the outcome of the helper's update check:
/// its exit status and both outputs.
pub fn get_aur_updates(helper: &AurManagers, success: bool, stdout: &str, stderr: &str) -> (r:
    Result<Vec<PackageUpdate>, UpdateError>)
    ensures
        success ==> r is Ok && r->Ok_0@.len() == aur_lines(lines(stdout@), *helper is PamacCli).len()
            && forall|k: int|
            0 <= k < r->Ok_0@.len() ==> is_aur_update(
                #[trigger] r->Ok_0@[k],
                aur_lines(lines(stdout@), *helper is PamacCli)[k],
            ),
        !success && benign_aur_failure(stdout@, stderr@) ==> r is Ok && r->Ok_0@.len() == 0,
        !success && !benign_aur_failure(stdout@, stderr@) ==> r is Err && r->Err_0 is CommandFailed
            && r->Err_0->CommandFailed_0@ == "AUR helper failed: "@ + stderr@,
{
    if success {
        return Ok(parse_aur_updates(stdout, helper));
    }
    let err = chars_of(stderr);
    let out = chars_of(stdout);
    if contains_str(&err, "nothing to do") || contains_str(&err, "no packages") || out.len() == 0 {
        return Ok(Vec::new());
    }
    let mut msg = String::from_str("AUR helper failed: ");
    msg.append(stderr);
    Err(UpdateError::CommandFailed(msg))
}

/// The command line that installs `packages` with `helper`: the helper's
/// install arguments then the names, run as `user` through `sudo -u` when
/// a desktop user is known.
pub open spec fn install_invocation(
    helper: AurManagers,
    packages: Seq<Seq<char>>,
    user: Option<Seq<char>>,
) -> Seq<Seq<char>> {
    let cmd = seq![command_of(helper)] + install_args_of(helper) + packages;
    match user {
        Some(u) => seq!["sudo"@, "-u"@, u] + cmd,
        None => cmd,
    }
}

/// The argument vector that installs AUR `packages`; an error when no
/// helper is available.
pub fn install_aur_packages(
    helper: Option<AurManagers>,
    packages: Vec<String>,
    original_user: Option<String>,
) -> (r: Result<Vec<String>, UpdateError>)
    ensures
        helper is None ==> r is Err && r->Err_0 is CommandFailed && r->Err_0->CommandFailed_0@
            == "No AUR helper available for installation"@,
        helper is Some ==> r is Ok && string_views(r->Ok_0@) == install_invocation(
            helper->0,
            string_views(packages@),
            opt_view(original_user),
        ),
{
    let h = match helper {
        Some(h) => h,
        None => {
            return Err(
                UpdateError::CommandFailed(
                    String::from_str("No AUR helper available for installation"),
                ),
            );
        },
    };
    let mut r: Vec<String> = Vec::new();
    match &original_user {
        Some(u) => {
            r.push(String::from_str("sudo"));
            r.push(String::from_str("-u"));
            r.push(u.clone());
        },
        None => {},
    }
    let ghost prefix = string_views(r@);
    r.push(String::from_str(h.command()));
    let args = h.install_args();
    let mut i: usize = 0;
    while i < args.len()
        invariant
            i <= args@.len(),
            arg_views(args@) == install_args_of(h),
            string_views(r@) == prefix + seq![command_of(h)] + arg_views(args@).subrange(
                0,
                i as int,
            ),
        decreases args@.len() - i,
    {
        let ghost old_r = r@;
        r.push(String::from_str(args[i]));
        assert(string_views(r@) =~= string_views(old_r).push(args@[i as int]@));
        assert(arg_views(args@).subrange(0, i + 1) =~= arg_views(args@).subrange(0, i as int).push(
            args@[i as int]@,
        ));
        i += 1;
    }
    assert(arg_views(args@).subrange(0, args@.len() as int) =~= arg_views(args@));
    let mut j: usize = 0;
    while j < packages.len()
        invariant
            j <= packages@.len(),
            string_views(r@) == prefix + seq![command_of(h)] + install_args_of(h) + string_views(
                packages@,
            ).subrange(0, j as int),
        decreases packages@.len() - j,
    {
        let ghost old_r = r@;
        r.push(packages[j].clone());
        assert(string_views(r@) =~= string_views(old_r).push(packages@[j as int]@));
        assert(string_views(packages@).subrange(0, j + 1) =~= string_views(packages@).subrange(
            0,
            j as int,
        ).push(packages@[j as int]@));
        j += 1;
    }
    assert(string_views(packages@).subrange(0, packages@.len() as int) =~= string_views(
        packages@,
    ));
    assert(string_views(r@) =~= install_invocation(
        h,
        string_views(packages@),
        opt_view(original_user),
    ));
    Ok(r)
}

} // verus!
