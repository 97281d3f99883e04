//! Who the desktop user is when the process runs with elevated privileges.
//! The environment hints and the outputs of the session and user lookups are
//! read by the caller and handed in as plain text.
use vstd::prelude::*;
use crate::models::{opt_str, opt_view};
use crate::number::{parse_u32, u32_of};
use crate::text::{
    chars_of, contains, contains_str, is_literal, lemma_spans_shape, lines, span_view, spans,
    split_lines, string_from, trim, trimmed, views, word_spans, words,
};

verus! {

/// The invoking user named by the sudo hint, unless it is empty or `root`.
pub open spec fn sudo_user_of(hint: Option<Seq<char>>) -> Option<Seq<char>> {
    match hint {
        Some(u) => if u.len() > 0 && u != "root"@ {
            Some(u)
        } else {
            None
        },
        None => None,
    }
}

/// The elevation hint, when it is a user id other than 0: the id to look up.
pub open spec fn lookup_uid_of(hint: Option<Seq<char>>) -> Option<Seq<char>> {
    match hint {
        Some(u) => match u32_of(u) {
            Some(n) => if n != 0 {
                Some(u)
            } else {
                None
            },
            None => None,
        },
        None => None,
    }
}

/// The user name that an id lookup printed, when it printed one.
pub open spec fn id_user_of(out: Seq<char>) -> Option<Seq<char>> {
    if trim(out).len() > 0 {
        Some(trim(out))
    } else {
        None
    }
}

/// The user of a login-list line on a graphical display or a terminal.
pub open spec fn who_user(l: Seq<char>, allow_root: bool) -> Option<Seq<char>> {
    if (contains(l, ":0"@) || contains(l, "tty"@)) && words(l).len() > 0 && (allow_root
        || words(l)[0] != "root"@) {
        Some(words(l)[0])
    } else {
        None
    }
}

pub open spec fn first_who_user(ls: Seq<Seq<char>>, allow_root: bool) -> Option<Seq<char>>
    decreases ls.len(),
{
    if ls.len() == 0 {
        None
    } else {
        match first_who_user(ls.drop_last(), allow_root) {
            Some(u) => Some(u),
            None => who_user(ls.last(), allow_root),
        }
    }
}

/// The user of a session-list line: at least three words, and the session
/// is on `seat0` or its user is not `root`.
pub open spec fn session_user(l: Seq<char>) -> Option<Seq<char>> {
    let w = words(l);
    if w.len() >= 3 && (w[2] == "seat0"@ || w[1] != "root"@) {
        Some(w[1])
    } else {
        None
    }
}

pub open spec fn first_session_user(ls: Seq<Seq<char>>) -> Option<Seq<char>>
    decreases ls.len(),
{
    if ls.len() == 0 {
        None
    } else {
        match first_session_user(ls.drop_last()) {
            Some(u) => Some(u),
            None => session_user(ls.last()),
        }
    }
}

/// The invoking user named by the sudo hint (see `sudo_user_of`).
pub fn user_from_sudo_hint(sudo_user: Option<&str>) -> (r: Option<String>)
    ensures
        opt_view(r) == sudo_user_of(opt_str(sudo_user)),
{
    match sudo_user {
        Some(u) => {
            let c = chars_of(u);
            if c.len() > 0 && !is_literal(&c, "root") {
                Some(String::from_str(u))
            } else {
                None
            }
        },
        None => None,
    }
}

/// The user id to look up from the elevation hint (see `lookup_uid_of`).
pub fn pkexec_lookup_uid(pkexec_uid: Option<&str>) -> (r: Option<String>)
    ensures
        opt_view(r) == lookup_uid_of(opt_str(pkexec_uid)),
{
    match pkexec_uid {
        Some(u) => {
            let c = chars_of(u);
            match parse_u32(&c) {
                Some(n) => if n != 0 {
                    Some(String::from_str(u))
                } else {
                    None
                },
                None => None,
            }
        },
        None => None,
    }
}

fn id_user(out: &str) -> (r: Option<String>)
    ensures
        opt_view(r) == id_user_of(out@),
{
    let c = chars_of(out);
    let t = trimmed(&c);
    if t.len() > 0 {
        Some(string_from(&t, 0, t.len()))
    } else {
        None
    }
}

/// The user of the first login-list line on a graphical display or a
/// terminal; `root` is passed over unless `allow_root`.
pub fn find_user_from_who(who_output: &str, allow_root: bool) -> (r: Option<String>)
    ensures
        opt_view(r) == first_who_user(lines(who_output@), allow_root),
{
    let text = chars_of(who_output);
    let ls = split_lines(&text);
    let mut i: usize = 0;
    while i < ls.len()
        invariant
            i <= ls@.len(),
            views(ls@) == lines(text@),
            text@ == who_output@,
            first_who_user(views(ls@).subrange(0, i as int), allow_root) is None,
        decreases ls@.len() - i,
    {
        let ghost next = views(ls@).subrange(0, i + 1);
        assert(next.drop_last() =~= views(ls@).subrange(0, i as int));
        assert(next.last() == ls@[i as int]@);
        let l = &ls[i];
        if contains_str(l, ":0") || contains_str(l, "tty") {
            let sp = word_spans(l);
            proof {
                lemma_spans_shape(l@);
            }
            if sp.len() > 0 {
                assert(span_view(sp@)[0] == spans(l@)[0]);
                let u = string_from(l, sp[0].0, sp[0].1);
                let uc = chars_of(u.as_str());
                if allow_root || !is_literal(&uc, "root") {
                    proof {
                        lemma_first_prefix_who(views(ls@), allow_root, i + 1);
                    }
                    return Some(u);
                }
            }
        }
        i += 1;
    }
    assert(views(ls@).subrange(0, ls@.len() as int) =~= views(ls@));
    None
}

pub proof fn lemma_first_prefix_who(ls: Seq<Seq<char>>, allow_root: bool, m: int)
    requires
        0 <= m <= ls.len(),
        first_who_user(ls.subrange(0, m), allow_root) is Some,
    ensures
        first_who_user(ls, allow_root) == first_who_user(ls.subrange(0, m), allow_root),
    decreases ls.len() - m,
{
    if m < ls.len() {
        assert(ls.subrange(0, m + 1).drop_last() =~= ls.subrange(0, m));
        lemma_first_prefix_who(ls, allow_root, m + 1);
    } else {
        assert(ls.subrange(0, m) =~= ls);
    }
}

pub proof fn lemma_first_prefix_session(ls: Seq<Seq<char>>, m: int)
    requires
        0 <= m <= ls.len(),
        first_session_user(ls.subrange(0, m)) is Some,
    ensures
        first_session_user(ls) == first_session_user(ls.subrange(0, m)),
    decreases ls.len() - m,
{
    if m < ls.len() {
        assert(ls.subrange(0, m + 1).drop_last() =~= ls.subrange(0, m));
        lemma_first_prefix_session(ls, m + 1);
    } else {
        assert(ls.subrange(0, m) =~= ls);
    }
}

/// The user of the first session-list line that qualifies (see `session_user`).
pub fn find_user_from_loginctl(sessions_output: &str) -> (r: Option<String>)
    ensures
        opt_view(r) == first_session_user(lines(sessions_output@)),
{
    let text = chars_of(sessions_output);
    let ls = split_lines(&text);
    let mut i: usize = 0;
    while i < ls.len()
        invariant
            i <= ls@.len(),
            views(ls@) == lines(text@),
            text@ == sessions_output@,
            first_session_user(views(ls@).subrange(0, i as int)) is None,
        decreases ls@.len() - i,
    {
        let ghost next = views(ls@).subrange(0, i + 1);
        assert(next.drop_last() =~= views(ls@).subrange(0, i as int));
        assert(next.last() == ls@[i as int]@);
        let l = &ls[i];
        let sp = word_spans(l);
        proof {
            lemma_spans_shape(l@);
        }
        if sp.len() >= 3 {
            assert(span_view(sp@)[1] == spans(l@)[1]);
            assert(span_view(sp@)[2] == spans(l@)[2]);
            let seat = crate::text::range_is(l, sp[2].0, sp[2].1, "seat0");
            let root = crate::text::range_is(l, sp[1].0, sp[1].1, "root");
            if seat || !root {
                proof {
                    lemma_first_prefix_session(views(ls@), i + 1);
                }
                return Some(string_from(l, sp[1].0, sp[1].1));
            }
        }
        i += 1;
    }
    assert(views(ls@).subrange(0, ls@.len() as int) =~= views(ls@));
    None
}

/// The desktop user behind an elevated process: the sudo hint; else the
/// user that the id lookup of the elevation hint printed; else the first
/// non-root login on a display or terminal. `None` means: proceed as the
/// current user. `id_output` is what looking up `pkexec_lookup_uid` printed.
pub open spec fn original_user_of(
    sudo_user: Option<Seq<char>>,
    pkexec_uid: Option<Seq<char>>,
    id_output: Option<Seq<char>>,
    who_output: Option<Seq<char>>,
) -> Option<Seq<char>> {
    if sudo_user_of(sudo_user) is Some {
        sudo_user_of(sudo_user)
    } else if lookup_uid_of(pkexec_uid) is Some && id_output is Some && id_user_of(id_output->0) is Some {
        id_user_of(id_output->0)
    } else {
        match who_output {
            Some(w) => first_who_user(lines(w), false),
            None => None,
        }
    }
}

/// The desktop user behind an elevated process (see `original_user_of`).
pub fn get_original_user(
    sudo_user: Option<&str>,
    pkexec_uid: Option<&str>,
    id_output: Option<&str>,
    who_output: Option<&str>,
) -> (r: Option<String>)
    ensures
        opt_view(r) == original_user_of(
            opt_str(sudo_user),
            opt_str(pkexec_uid),
            opt_str(id_output),
            opt_str(who_output),
        ),
{
    if let Some(u) = user_from_sudo_hint(sudo_user) {
        return Some(u);
    }
    if pkexec_lookup_uid(pkexec_uid).is_some() {
        if let Some(out) = id_output {
            if let Some(u) = id_user(out) {
                return Some(u);
            }
        }
    }
    match who_output {
        Some(w) => find_user_from_who(w, false),
        None => None,
    }
}

/// The user whose session an elevated process should join: the sudo hint
/// as given, else the first login on a display or terminal, else the first
/// qualifying session.
pub open spec fn target_user_of(
    sudo_user: Option<Seq<char>>,
    who_output: Option<Seq<char>>,
    sessions_output: Option<Seq<char>>,
) -> Option<Seq<char>> {
    if sudo_user is Some {
        sudo_user
    } else if who_output is Some && first_who_user(lines(who_output->0), true) is Some {
        first_who_user(lines(who_output->0), true)
    } else {
        match sessions_output {
            Some(s) => first_session_user(lines(s)),
            None => None,
        }
    }
}

/// The user whose session an elevated process should join (see `target_user_of`).
pub fn find_target_user(
    sudo_user: Option<&str>,
    who_output: Option<&str>,
    sessions_output: Option<&str>,
) -> (r: Option<String>)
    ensures
        opt_view(r) == target_user_of(
            opt_str(sudo_user),
            opt_str(who_output),
            opt_str(sessions_output),
        ),
{
    if let Some(u) = sudo_user {
        return Some(String::from_str(u));
    }
    if let Some(w) = who_output {
        if let Some(u) = find_user_from_who(w, true) {
            return Some(u);
        }
    }
    match sessions_output {
        Some(s) => find_user_from_loginctl(s),
        None => None,
    }
}

/// The session variables as the process found them.
#[derive(Clone, Debug)]
pub struct SessionEnv {
    pub runtime_dir: Option<String>,
    pub bus_address: Option<String>,
    pub home: Option<String>,
    pub config_home: Option<String>,
    pub data_home: Option<String>,
    pub cache_home: Option<String>,
    pub xauthority: Option<String>,
}

pub open spec fn unless_set(v: Option<String>, name: Seq<char>, value: Seq<char>) -> Seq<
    (Seq<char>, Seq<char>),
> {
    if v is None {
        seq![(name, value)]
    } else {
        seq![]
    }
}

/// The variables to set, in order, so that a root process joins the
/// session of `user` (numeric id `uid`): each unset one gets the user's
/// value, and `HOME` is moved from `/root` to the user's home.
pub open spec fn session_assignments(user: Seq<char>, uid: Seq<char>, env: SessionEnv) -> Seq<
    (Seq<char>, Seq<char>),
> {
    let home = "/home/"@ + user;
    unless_set(env.runtime_dir, "XDG_RUNTIME_DIR"@, "/run/user/"@ + uid) + unless_set(
        env.bus_address,
        "DBUS_SESSION_BUS_ADDRESS"@,
        "unix:path=/run/user/"@ + uid + "/bus"@,
    ) + (if opt_view(env.home) == Some("/root"@) {
        seq![("HOME"@, home)]
    } else {
        seq![]
    }) + unless_set(env.config_home, "XDG_CONFIG_HOME"@, home + "/.config"@) + unless_set(
        env.data_home,
        "XDG_DATA_HOME"@,
        home + "/.local/share"@,
    ) + unless_set(env.cache_home, "XDG_CACHE_HOME"@, home + "/.cache"@) + unless_set(
        env.xauthority,
        "XAUTHORITY"@,
        home + "/.Xauthority"@,
    )
}

pub open spec fn pair_views(v: Seq<(String, String)>) -> Seq<(Seq<char>, Seq<char>)> {
    v.map_values(|p: (String, String)| (p.0@, p.1@))
}

fn concat3(a: &str, b: &str, c: &str) -> (r: String)
    ensures
        r@ == a@ + b@ + c@,
{
    let mut r = String::from_str(a);
    r.append(b);
    r.append(c);
    r
}

fn push_unless_set(out: &mut Vec<(String, String)>, v: &Option<String>, name: &str, value: String)
    ensures
        pair_views(final(out)@) == pair_views(old(out)@) + unless_set(*v, name@, value@),
{
    let ghost before = pair_views(out@);
    if v.is_none() {
        out.push((String::from_str(name), value));
        assert(pair_views(out@) =~= before + unless_set(*v, name@, value@));
    } else {
        assert(pair_views(out@) =~= before + unless_set(*v, name@, value@));
    }
}

/// The variables to set so that a root process joins the session of `user`
/// (see `session_assignments`).
pub fn session_environment(user: &str, uid: &str, env: &SessionEnv) -> (r: Vec<(String, String)>)
    ensures
        pair_views(r@) == session_assignments(user@, uid@, *env),
{
    let home = concat3("/home/", user, "");
    assert(home@ =~= "/home/"@ + user@) by {
        reveal_strlit("");
    }
    let mut r: Vec<(String, String)> = Vec::new();
    assert(pair_views(r@) =~= seq![]);
    push_unless_set(&mut r, &env.runtime_dir, "XDG_RUNTIME_DIR", concat3("/run/user/", uid, ""));
    push_unless_set(
        &mut r,
        &env.bus_address,
        "DBUS_SESSION_BUS_ADDRESS",
        concat3("unix:path=/run/user/", uid, "/bus"),
    );
    let ghost before = pair_views(r@);
    let at_root = match &env.home {
        Some(h) => crate::text::str_is(h.as_str(), "/root"),
        None => false,
    };
    if at_root {
        r.push((String::from_str("HOME"), concat3(home.as_str(), "", "")));
    }
    proof {
        reveal_strlit("");
    }
    assert(pair_views(r@) =~= before + (if opt_view(env.home) == Some("/root"@) {
        seq![("HOME"@, "/home/"@ + user@)]
    } else {
        seq![]
    }));
    push_unless_set(
        &mut r,
        &env.config_home,
        "XDG_CONFIG_HOME",
        concat3(home.as_str(), "/.config", ""),
    );
    push_unless_set(
        &mut r,
        &env.data_home,
        "XDG_DATA_HOME",
        concat3(home.as_str(), "/.local/share", ""),
    );
    push_unless_set(&mut r, &env.cache_home, "XDG_CACHE_HOME", concat3(home.as_str(), "/.cache", ""));
    push_unless_set(
        &mut r,
        &env.xauthority,
        "XAUTHORITY",
        concat3(home.as_str(), "/.Xauthority", ""),
    );
    r
}

} // verus!
