//! The fixed set of AUR helper programs and their command-line surfaces.
use vstd::prelude::*;
use crate::text::str_is;

verus! {

#[derive(Clone, Copy, Debug, PartialEq, Eq, Structural)]
pub enum AurManagers {
    Yay,
    Paru,
    Trizen,
    Pikaur,
    PamacCli,
}

/// The program name of each helper.
pub open spec fn command_of(m: AurManagers) -> Seq<char> {
    match m {
        AurManagers::Yay => "yay"@,
        AurManagers::Paru => "paru"@,
        AurManagers::Trizen => "trizen"@,
        AurManagers::Pikaur => "pikaur"@,
        AurManagers::PamacCli => "pamac"@,
    }
}

/// The helper whose program name is `s`, if any.
pub open spec fn helper_named(s: Seq<char>) -> Option<AurManagers> {
    if s == "yay"@ {
        Some(AurManagers::Yay)
    } else if s == "paru"@ {
        Some(AurManagers::Paru)
    } else if s == "trizen"@ {
        Some(AurManagers::Trizen)
    } else if s == "pikaur"@ {
        Some(AurManagers::Pikaur)
    } else if s == "pamac"@ {
        Some(AurManagers::PamacCli)
    } else {
        None
    }
}

pub open spec fn arg_views(v: Seq<&str>) -> Seq<Seq<char>> {
    v.map_values(|a: &str| a@)
}

/// Arguments that list pending AUR updates.
pub open spec fn update_check_args_of(m: AurManagers) -> Seq<Seq<char>> {
    match m {
        AurManagers::PamacCli => seq!["list"@, "-u"@, "-a"@],
        _ => seq!["-Qua"@],
    }
}

/// Arguments that install packages (the names follow).
pub open spec fn install_args_of(m: AurManagers) -> Seq<Seq<char>> {
    match m {
        AurManagers::PamacCli => seq!["install"@],
        _ => seq!["-S"@],
    }
}

impl AurManagers {
    pub fn command(&self) -> (r: &'static str)
        ensures
            r@ == command_of(*self),
    {
        match self {
            AurManagers::Yay => "yay",
            AurManagers::Paru => "paru",
            AurManagers::Trizen => "trizen",
            AurManagers::Pikaur => "pikaur",
            AurManagers::PamacCli => "pamac",
        }
    }

    pub fn from_command(command: &str) -> (r: Option<Self>)
        ensures
            r == helper_named(command@),
    {
        if str_is(command, "yay") {
            Some(AurManagers::Yay)
        } else if str_is(command, "paru") {
            Some(AurManagers::Paru)
        } else if str_is(command, "trizen") {
            Some(AurManagers::Trizen)
        } else if str_is(command, "pikaur") {
            Some(AurManagers::Pikaur)
        } else if str_is(command, "pamac") {
            Some(AurManagers::PamacCli)
        } else {
            None
        }
    }

    pub fn update_check_args(&self) -> (r: Vec<&'static str>)
        ensures
            arg_views(r@) == update_check_args_of(*self),
    {
        let r = match self {
            AurManagers::PamacCli => vec!["list", "-u", "-a"],
            _ => vec!["-Qua"],
        };
        assert(arg_views(r@) =~= update_check_args_of(*self));
        r
    }

    pub fn install_args(&self) -> (r: Vec<&'static str>)
        ensures
            arg_views(r@) == install_args_of(*self),
    {
        let r = match self {
            AurManagers::PamacCli => vec!["install"],
            _ => vec!["-S"],
        };
        assert(arg_views(r@) =~= install_args_of(*self));
        r
    }

    /// Whether the helper accepts non-interactive confirmation.
    pub fn supports_noconfirm(&self) -> (r: bool)
        ensures
            r == !(*self is PamacCli),
    {
        match self {
            AurManagers::PamacCli => false,
            _ => true,
        }
    }
}

/// Each helper is found again by its program name.
pub proof fn lemma_command_round_trip(m: AurManagers)
    ensures
        helper_named(command_of(m)) == Some(m),
{
    reveal_strlit("yay");
    reveal_strlit("paru");
    reveal_strlit("trizen");
    reveal_strlit("pikaur");
    reveal_strlit("pamac");
    assert("yay"@ != "paru"@ && "yay"@ != "trizen"@ && "yay"@ != "pikaur"@ && "yay"@ != "pamac"@)
        by {
        assert("yay"@.len() != "trizen"@.len() && "yay"@.len() != "pikaur"@.len());
        assert("yay"@[0] != "paru"@[0] && "yay"@.len() != "pamac"@.len());
    }
    assert("paru"@ != "trizen"@ && "paru"@ != "pikaur"@ && "paru"@ != "pamac"@) by {
        assert("paru"@.len() != "trizen"@.len() && "paru"@.len() != "pikaur"@.len());
        assert("paru"@.len() != "pamac"@.len());
    }
    assert("trizen"@ != "pikaur"@ && "trizen"@ != "pamac"@) by {
        assert("trizen"@[0] != "pikaur"@[0] && "trizen"@.len() != "pamac"@.len());
    }
    assert("pikaur"@ != "pamac"@) by {
        assert("pikaur"@.len() != "pamac"@.len());
    }
}

} // verus!
