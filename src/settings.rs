//! Persisted preferences and the choice of AUR helper.
use vstd::prelude::*;
use crate::aur_managers::{AurManagers, command_of, helper_named};
use crate::text::str_is;

verus! {

/// How long snapshots made before updates are kept.
#[derive(Clone, Copy, Debug, PartialEq, Eq, Structural)]
pub enum SnapshotRetentionPeriod {
    Forever,
    Day,
    Week,
    Month,
    Year,
}

pub open spec fn period_label(p: SnapshotRetentionPeriod) -> Seq<char> {
    match p {
        SnapshotRetentionPeriod::Forever => "Forever"@,
        SnapshotRetentionPeriod::Day => "1 Day"@,
        SnapshotRetentionPeriod::Week => "1 Week"@,
        SnapshotRetentionPeriod::Month => "1 Month"@,
        SnapshotRetentionPeriod::Year => "1 Year"@,
    }
}

impl SnapshotRetentionPeriod {
    /// The label shown for the period.
    pub fn to_string(&self) -> (r: String)
        ensures
            r@ == period_label(*self),
    {
        let s = match self {
            SnapshotRetentionPeriod::Forever => "Forever",
            SnapshotRetentionPeriod::Day => "1 Day",
            SnapshotRetentionPeriod::Week => "1 Week",
            SnapshotRetentionPeriod::Month => "1 Month",
            SnapshotRetentionPeriod::Year => "1 Year",
        };
        String::from_str(s)
    }
}

impl Default for SnapshotRetentionPeriod {
    fn default() -> (r: Self)
        ensures
            r == SnapshotRetentionPeriod::Forever,
    {
        SnapshotRetentionPeriod::Forever
    }
}

/// User preferences, loaded once at startup and passed to each component.
#[derive(Clone, Debug)]
pub struct AppSettings {
    pub enable_aur_support: bool,
    pub preferred_aur_helper: Option<String>,
    pub create_timeshift_snapshot: bool,
    pub snapshot_retention_count: u32,
    pub snapshot_retention_period: SnapshotRetentionPeriod,
}

/// The keep-count used when the stored settings do not give one.
pub fn default_snapshot_retention_count() -> (r: u32)
    ensures
        r == 1,
{
    1
}

impl Default for AppSettings {
    /// The settings used when none are stored or they cannot be read.
    fn default() -> (r: Self)
        ensures
            !r.enable_aur_support,
            r.preferred_aur_helper is None,
            r.create_timeshift_snapshot,
            r.snapshot_retention_count == 1,
            r.snapshot_retention_period == SnapshotRetentionPeriod::Forever,
    {
        AppSettings {
            enable_aur_support: false,
            preferred_aur_helper: None,
            create_timeshift_snapshot: true,
            snapshot_retention_count: default_snapshot_retention_count(),
            snapshot_retention_period: SnapshotRetentionPeriod::Forever,
        }
    }
}

pub open spec fn string_views(v: Seq<String>) -> Seq<Seq<char>> {
    v.map_values(|x: String| x@)
}

/// The helpers in the order in which they are tried.
pub open spec fn helper_order() -> Seq<AurManagers> {
    seq![
        AurManagers::Yay,
        AurManagers::Paru,
        AurManagers::Trizen,
        AurManagers::Pikaur,
        AurManagers::PamacCli,
    ]
}

/// The helpers of `order` whose program is among `resolvable`, in order.
pub open spec fn resolvable_of(resolvable: Seq<Seq<char>>, order: Seq<AurManagers>) -> Seq<
    AurManagers,
>
    decreases order.len(),
{
    if order.len() == 0 {
        seq![]
    } else {
        let p = resolvable_of(resolvable, order.drop_last());
        if resolvable.contains(command_of(order.last())) {
            p.push(order.last())
        } else {
            p
        }
    }
}

/// The known helpers whose program is among `resolvable`, in priority order.
pub open spec fn available_helpers(resolvable: Seq<Seq<char>>) -> Seq<AurManagers> {
    resolvable_of(resolvable, helper_order())
}

/// The program names of `s`.
pub open spec fn commands(s: Seq<AurManagers>) -> Seq<Seq<char>> {
    s.map_values(|h: AurManagers| command_of(h))
}

/// The program to use for AUR work, given the names that the command lookup
/// resolved: none when AUR support is off; else the preferred helper when it
/// resolves; else the first known helper that does.
pub open spec fn effective_helper(s: AppSettings, resolvable: Seq<Seq<char>>) -> Option<
    Seq<char>,
> {
    if !s.enable_aur_support {
        None
    } else if s.preferred_aur_helper is Some && resolvable.contains(
        s.preferred_aur_helper->0@,
    ) {
        Some(s.preferred_aur_helper->0@)
    } else if available_helpers(resolvable).len() > 0 {
        Some(command_of(available_helpers(resolvable)[0]))
    } else {
        None
    }
}

/// The helper selected for AUR work: the effective helper when it is a known
/// one, else the first known helper that resolves; none when AUR support is off.
pub open spec fn selected_helper(s: AppSettings, resolvable: Seq<Seq<char>>) -> Option<
    AurManagers,
> {
    match effective_helper(s, resolvable) {
        None => None,
        Some(name) => match helper_named(name) {
            Some(h) => Some(h),
            None => if available_helpers(resolvable).len() > 0 {
                Some(available_helpers(resolvable)[0])
            } else {
                None
            },
        },
    }
}

fn is_resolvable(resolvable: &Vec<String>, name: &str) -> (r: bool)
    ensures
        r == string_views(resolvable@).contains(name@),
{
    let mut i: usize = 0;
    while i < resolvable.len()
        invariant
            i <= resolvable@.len(),
            forall|k: int| 0 <= k < i ==> resolvable@[k]@ != name@,
        decreases resolvable@.len() - i,
    {
        if str_is(resolvable[i].as_str(), name) {
            assert(string_views(resolvable@)[i as int] == name@);
            return true;
        }
        i += 1;
    }
    assert forall|k: int| 0 <= k < string_views(resolvable@).len() implies string_views(
        resolvable@,
    )[k] != name@ by {}
    false
}

fn helper_list() -> (r: Vec<AurManagers>)
    ensures
        r@ == helper_order(),
{
    let r = vec![
        AurManagers::Yay,
        AurManagers::Paru,
        AurManagers::Trizen,
        AurManagers::Pikaur,
        AurManagers::PamacCli,
    ];
    assert(r@ =~= helper_order());
    r
}

fn available_list(resolvable: &Vec<String>) -> (r: Vec<AurManagers>)
    ensures
        r@ == available_helpers(string_views(resolvable@)),
{
    let order = helper_list();
    let ghost res = string_views(resolvable@);
    let mut r: Vec<AurManagers> = Vec::new();
    let mut i: usize = 0;
    while i < order.len()
        invariant
            i <= order@.len(),
            order@ == helper_order(),
            res == string_views(resolvable@),
            r@ == resolvable_of(res, order@.subrange(0, i as int)),
        decreases order@.len() - i,
    {
        let h = order[i];
        assert(order@.subrange(0, i + 1).drop_last() =~= order@.subrange(0, i as int));
        if is_resolvable(resolvable, h.command()) {
            r.push(h);
            assert(r@ =~= resolvable_of(res, order@.subrange(0, i + 1)));
        } else {
            assert(r@ =~= resolvable_of(res, order@.subrange(0, i + 1)));
        }
        i += 1;
    }
    assert(order@.subrange(0, order@.len() as int) =~= order@);
    r
}

/// The names of the known helpers that resolve, in priority order.
pub fn get_available_aur_helpers(resolvable: &Vec<String>) -> (r: Vec<String>)
    ensures
        string_views(r@) == commands(available_helpers(string_views(resolvable@))),
{
    let avail = available_list(resolvable);
    let mut r: Vec<String> = Vec::new();
    let mut i: usize = 0;
    while i < avail.len()
        invariant
            i <= avail@.len(),
            string_views(r@) == commands(avail@.subrange(0, i as int)),
        decreases avail@.len() - i,
    {
        let ghost old_r = r@;
        r.push(String::from_str(avail[i].command()));
        assert(string_views(r@) =~= string_views(old_r).push(command_of(avail@[i as int])));
        assert(commands(avail@.subrange(0, i + 1)) =~= commands(avail@.subrange(0, i as int)).push(
            command_of(avail@[i as int]),
        ));
        i += 1;
    }
    assert(avail@.subrange(0, avail@.len() as int) =~= avail@);
    r
}

/// The program to use for AUR work (see `effective_helper`).
pub fn get_effective_aur_helper(settings: &AppSettings, resolvable: &Vec<String>) -> (r: Option<
    String,
>)
    ensures
        match r {
            Some(n) => effective_helper(*settings, string_views(resolvable@)) == Some(n@),
            None => effective_helper(*settings, string_views(resolvable@)) is None,
        },
{
    if !settings.enable_aur_support {
        return None;
    }
    if let Some(preferred) = &settings.preferred_aur_helper {
        if is_resolvable(resolvable, preferred.as_str()) {
            return Some(String::from_str(preferred.as_str()));
        }
    }
    let avail = available_list(resolvable);
    if avail.len() > 0 {
        Some(String::from_str(avail[0].command()))
    } else {
        None
    }
}

/// The helper selected for AUR work (see `selected_helper`).
pub fn detect_aur_helper(settings: &AppSettings, resolvable: &Vec<String>) -> (r: Option<
    AurManagers,
>)
    ensures
        r == selected_helper(*settings, string_views(resolvable@)),
{
    if let Some(name) = get_effective_aur_helper(settings, resolvable) {
        if let Some(helper) = AurManagers::from_command(name.as_str()) {
            return Some(helper);
        }
        let avail = available_list(resolvable);
        if avail.len() > 0 {
            return Some(avail[0]);
        }
    }
    None
}

} // verus!
