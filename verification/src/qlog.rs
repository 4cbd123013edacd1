//! The names under which connections are logged.

use vstd::prelude::*;
use vstd::string::*;

verus! {

/// The name of the log of a connection, by the role of the endpoint and the
/// connection's ID.
pub open spec fn file_name_spec(role: Seq<char>, id: Seq<char>) -> Seq<char> {
    role + "-"@ + id + ".sqlog"@
}

/// The name of the log of a connection.
pub fn file_name(role: &str, id: &str) -> (name: String)
    ensures
        name@ == file_name_spec(role@, id@),
        name@ == role@ + "-"@ + id@ + ".sqlog"@,
{
    let mut name: String = role.to_string();
    name.append("-");
    name.append(id);
    name.append(".sqlog");
    name
}

/// The description that a log carries: its title, and the ID of the connection.
pub fn description(title: &str, id: &str) -> (text: String)
    ensures
        text@ == title@ + " id="@ + id@,
{
    let mut text: String = title.to_string();
    text.append(" id=");
    text.append(id);
    text
}

/// Logs of one role are told apart by the connection.
pub proof fn law_file_names_are_distinct(role: Seq<char>, a: Seq<char>, b: Seq<char>)
    requires
        file_name_spec(role, a) == file_name_spec(role, b),
    ensures
        a == b,
{
    let x = file_name_spec(role, a);
    let n = role.len() + "-"@.len();
    assert(x.len() == file_name_spec(role, b).len());
    assert(a.len() == b.len());
    assert(x.subrange(n as int, (n + a.len()) as int) =~= a);
    assert(file_name_spec(role, b).subrange(n as int, (n + a.len()) as int) =~= b);
}

} // verus!
