//! The privileged install hand-off: the script that runs the install and
//! records its exit code in a one-shot marker, and the reading of that marker.
use vstd::prelude::*;
use crate::models::{opt_str, UpdateError};
use crate::number::{i32_of, parse_i32};
use crate::settings::string_views;
use crate::text::{chars_of, trim, trimmed};

verus! {

/// `parts` joined with single spaces.
pub open spec fn join_spaced(parts: Seq<Seq<char>>) -> Seq<char>
    decreases parts.len(),
{
    if parts.len() == 0 {
        seq![]
    } else if parts.len() == 1 {
        parts[0]
    } else {
        join_spaced(parts.drop_last()) + " "@ + parts.last()
    }
}

/// The install command for `names`: `sudo pacman -S` and the names.
pub open spec fn install_command_of(names: Seq<Seq<char>>) -> Seq<char> {
    join_spaced(seq!["sudo"@, "pacman"@, "-S"@] + names)
}

/// The install command line for `package_names` (see `install_command_of`).
pub fn install_command_line(package_names: &Vec<String>) -> (r: String)
    ensures
        r@ == install_command_of(string_views(package_names@)),
{
    let ghost parts = seq!["sudo"@, "pacman"@, "-S"@] + string_views(package_names@);
    let mut r = String::from_str("sudo pacman -S");
    proof {
        reveal_strlit("sudo pacman -S");
        reveal_strlit("sudo");
        reveal_strlit("pacman");
        reveal_strlit("-S");
        reveal_strlit(" ");
        assert(parts.subrange(0, 1).drop_last() =~= seq![]);
        assert(parts.subrange(0, 2).drop_last() =~= parts.subrange(0, 1));
        assert(parts.subrange(0, 3).drop_last() =~= parts.subrange(0, 2));
        assert(join_spaced(parts.subrange(0, 1)) == "sudo"@);
        assert(join_spaced(parts.subrange(0, 2)) == "sudo"@ + " "@ + "pacman"@);
        assert(join_spaced(parts.subrange(0, 3)) == "sudo"@ + " "@ + "pacman"@ + " "@ + "-S"@);
        assert("sudo"@ + " "@ + "pacman"@ + " "@ + "-S"@ =~= "sudo pacman -S"@);
    }
    let mut i: usize = 0;
    while i < package_names.len()
        invariant
            i <= package_names@.len(),
            parts == seq!["sudo"@, "pacman"@, "-S"@] + string_views(package_names@),
            r@ == join_spaced(parts.subrange(0, i + 3)),
        decreases package_names@.len() - i,
    {
        assert(parts.subrange(0, i + 4).drop_last() =~= parts.subrange(0, i + 3));
        assert(parts[i + 3] == package_names@[i as int]@);
        r.append(" ");
        r.append(package_names[i].as_str());
        i += 1;
    }
    assert(parts.subrange(0, package_names@.len() as int + 3) =~= parts);
    r
}

/// The script that runs `command`, writes its exit code to `marker`, reports
/// the outcome and waits for Enter.
pub open spec fn script_of(command: Seq<char>, marker: Seq<char>) -> Seq<char> {
    "#!/bin/bash\necho 'Installing packages...'\n"@ + command
        + "\ninstallation_result=$?\necho 'Installation completed with exit code: $installation_result'\necho $installation_result > '"@
        + marker
        + "'\nif [ $installation_result -eq 0 ]; then\necho 'Package installation successful!'\nelse\necho 'Package installation failed!'\nfi\nread -p 'Press Enter to continue...'\n"@
}

/// The install script for `package_names` that records its exit code at
/// `marker_path`; an error when no package is selected.
pub fn install_script(package_names: &Vec<String>, marker_path: &str) -> (r: Result<
    String,
    UpdateError,
>)
    ensures
        package_names@.len() == 0 ==> r is Err && r->Err_0 is CommandFailed
            && r->Err_0->CommandFailed_0@ == "No packages selected for installation"@,
        package_names@.len() > 0 ==> r is Ok && r->Ok_0@ == script_of(
            install_command_of(string_views(package_names@)),
            marker_path@,
        ),
{
    if package_names.len() == 0 {
        return Err(
            UpdateError::CommandFailed(String::from_str("No packages selected for installation")),
        );
    }
    let command = install_command_line(package_names);
    let mut s = String::from_str("#!/bin/bash\necho 'Installing packages...'\n");
    s.append(command.as_str());
    s.append(
        "\ninstallation_result=$?\necho 'Installation completed with exit code: $installation_result'\necho $installation_result > '",
    );
    s.append(marker_path);
    s.append(
        "'\nif [ $installation_result -eq 0 ]; then\necho 'Package installation successful!'\nelse\necho 'Package installation failed!'\nfi\nread -p 'Press Enter to continue...'\n",
    );
    Ok(s)
}

/// What the completion marker says: nothing yet while there is no marker;
/// success when its trimmed content is the exit code 0; failure for another
/// exit code; success when the content is not an exit code.
pub open spec fn outcome_of(marker: Option<Seq<char>>) -> Option<bool> {
    match marker {
        None => None,
        Some(c) => match i32_of(trim(c)) {
            Some(code) => Some(code == 0),
            None => Some(true),
        },
    }
}

/// The install outcome from the marker's content, `None` when there is no
/// marker yet (see `outcome_of`).
pub fn installation_outcome(marker_content: Option<&str>) -> (r: Option<bool>)
    ensures
        r == outcome_of(opt_str(marker_content)),
{
    match marker_content {
        None => None,
        Some(c) => {
            let v = chars_of(c);
            let t = trimmed(&v);
            match parse_i32(&t) {
                Some(code) => Some(code == 0),
                None => Some(true),
            }
        },
    }
}

} // verus!
