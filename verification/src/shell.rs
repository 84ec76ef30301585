//! Which shell a session shares.
use vstd::prelude::*;
use vstd::string::*;

verus! {

/// Where shells are looked for, in this order.
pub open spec fn candidates() -> Seq<Seq<char>> {
    seq!["/bin/sh"@, "/bin/bash"@, "/bin/ash"@, "/bin/dash"@]
}

/// The first candidate from `i` on that exists, `sh` if none does.
pub open spec fn first_present(present: Seq<bool>, i: int) -> Seq<char>
    decreases candidates().len() - i,
{
    if i < 0 || i >= candidates().len() {
        "sh"@
    } else if i < present.len() && present[i] {
        candidates()[i]
    } else {
        first_present(present, i + 1)
    }
}

/// The shell: the one that the user has set, if it exists, or the first candidate that does.
pub open spec fn chosen(shell: Option<Seq<char>>, shell_exists: bool, present: Seq<bool>) -> Seq<char> {
    if shell is Some && shell_exists {
        shell->Some_0
    } else {
        first_present(present, 0)
    }
}

/// Where shells are looked for, in this order.
pub fn shell_candidates() -> (r: Vec<&'static str>)
    ensures
        r@.map_values(|s: &'static str| s@) == candidates(),
{
    let r: Vec<&'static str> = vec!["/bin/sh", "/bin/bash", "/bin/ash", "/bin/dash"];
    assert(r@.map_values(|s: &'static str| s@) =~= candidates());
    r
}

fn first_existing(present: &[bool]) -> (r: String)
    ensures
        r@ == first_present(present@, 0),
{
    let names: Vec<&'static str> = shell_candidates();
    let mut i: usize = 0;
    while i < names.len()
        invariant
            i <= names@.len(),
            names@.map_values(|s: &'static str| s@) == candidates(),
            first_present(present@, 0) == first_present(present@, i as int),
        decreases names@.len() - i,
    {
        assert(candidates()[i as int] == names@[i as int]@);
        if i < present.len() && present[i] {
            return names[i].to_owned();
        }
        i += 1;
    }
    "sh".to_owned()
}

/// The shell to share, from what the user has set, whether that exists, and which candidates do.
pub fn find_shell(shell: Option<String>, shell_exists: bool, present: &[bool]) -> (r: String)
    ensures
        r@ == chosen(
            match shell {
                Some(s) => Some(s@),
                None => None,
            },
            shell_exists,
            present@,
        ),
{
    if let Some(s) = shell {
        if shell_exists {
            return s;
        }
    }
    first_existing(present)
}

/// The shell to share on Windows: the one that is set there, or PowerShell.
pub fn find_windows_shell(comspec: Option<String>) -> (r: String)
    ensures
        r@ == (match comspec {
            Some(s) => s@,
            None => "powershell.exe"@,
        }),
{
    match comspec {
        Some(s) => s,
        None => "powershell.exe".to_owned(),
    }
}

/// The shell that the user has set is taken if it exists, and does not matter if it does not.
pub proof fn lemma_shell_of_the_user_comes_first(shell: Seq<char>, exists_here: bool, present: Seq<bool>)
    ensures
        chosen(Some(shell), true, present) == shell,
        chosen(Some(shell), false, present) == chosen(None, exists_here, present),
{
}

/// Of the usual shells, the first one that exists is taken, in this order; where none does, it is
/// left to the system to find one. A shell that is not said to exist does not.
pub proof fn lemma_first_shell_that_exists(present: Seq<bool>, exists_here: bool)
    ensures
        ({
            let sh = present.len() > 0 && present[0];
            let bash = present.len() > 1 && present[1];
            let ash = present.len() > 2 && present[2];
            let dash = present.len() > 3 && present[3];
            let taken = chosen(None, exists_here, present);
            &&& sh ==> taken == "/bin/sh"@
            &&& !sh && bash ==> taken == "/bin/bash"@
            &&& !sh && !bash && ash ==> taken == "/bin/ash"@
            &&& !sh && !bash && !ash && dash ==> taken == "/bin/dash"@
            &&& !sh && !bash && !ash && !dash ==> taken == "sh"@
        }),
{
    reveal_with_fuel(first_present, 5);
    assert(candidates().len() == 4);
}

} // verus!
