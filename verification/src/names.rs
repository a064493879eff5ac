//! Rules on process image names: which names look like a user's application,
//! and how a name is shown.

use vstd::prelude::*;
use vstd::string::*;
use crate::text::{chars_of, has_run, lowered, lowered_contains, occurs_at, ascii_lower};

verus! {

/// The image name of this tool itself, which it never lists.
pub open spec fn own_image_name() -> Seq<char> {
    "expurgate.exe"@
}

/// The tokens that mark a process as no application of the user's, in lower
/// case.
pub open spec fn denylist() -> Seq<Seq<char>> {
    seq![
        "service"@,
        "helper"@,
        "overlay"@,
        "tray"@,
        "host"@,
        "broker"@,
        "container"@,
        "runtime"@,
        "svchost"@,
        "dwm"@,
        "explorer"@,
        "taskmgr"@,
    ]
}

/// The name holds a denylist token, letter case aside.
pub open spec fn names_denylisted(name: Seq<char>) -> bool {
    exists|k: int| 0 <= k < denylist().len() && has_run(lowered(name), #[trigger] denylist()[k])
}

/// Process ids that the system keeps for itself: the idle and the system
/// process.
pub open spec fn reserved_pid(pid: u32) -> bool {
    pid == 0 || pid == 4
}

/// The process looks like an application that the user started: its id is
/// not reserved, its name is not this tool's own and holds no denylist token.
pub open spec fn plausible_user_app(pid: u32, name: Seq<char>) -> bool {
    &&& !reserved_pid(pid)
    &&& name != own_image_name()
    &&& !names_denylisted(name)
}

/// `name` holds `token` at index `at`, in some mixture of upper and lower
/// case.
pub open spec fn holds_mixed_case_at(name: Seq<char>, token: Seq<char>, at: int) -> bool {
    &&& 0 <= at
    &&& at + token.len() <= name.len()
    &&& forall|j: int| 0 <= j < token.len() ==> ascii_lower(#[trigger] name[at + j]) == token[j]
}

/// `name` holds `token` somewhere, in some mixture of upper and lower case.
pub open spec fn holds_mixed_case(name: Seq<char>, token: Seq<char>) -> bool {
    exists|at: int| holds_mixed_case_at(name, token, at)
}

/// A name that holds a denylist token, in whatever mixture of letter cases,
/// is never taken for a user's application, whatever the process id.
pub proof fn lemma_denylisted_token_excludes(pid: u32, name: Seq<char>, token: Seq<char>)
    requires
        denylist().contains(token),
        holds_mixed_case(name, token),
    ensures
        !plausible_user_app(pid, name),
{
    let at = choose|at: int| holds_mixed_case_at(name, token, at);
    let low = lowered(name);
    assert forall|j: int| 0 <= j < token.len() implies low.subrange(
        at,
        at + token.len(),
    )[j] == token[j] by {
        assert(ascii_lower(name[at + j]) == token[j]);
    }
    assert(low.subrange(at, at + token.len()) =~= token);
    assert(occurs_at(low, token, at));
    let k = choose|k: int| 0 <= k < denylist().len() && denylist()[k] == token;
    assert(has_run(low, denylist()[k]));
}

/// A reserved process id is never taken for a user's application, whatever
/// the name.
pub proof fn lemma_reserved_pid_excludes(pid: u32, name: Seq<char>)
    requires
        pid == 0 || pid == 4,
    ensures
        !plausible_user_app(pid, name),
{
}

/// Tells whether a process looks like an application that the user started,
/// going by its id and its image name alone.
///
/// The answer is no for the two reserved process ids, for this tool's own
/// image name, and for every name that holds one of the denylist tokens,
/// letter case aside.
pub fn loosely_check_if_real_app(pid: &u32, name: &String) -> (plausible: bool)
    ensures
        plausible == plausible_user_app(*pid, name@),
        (*pid == 0 || *pid == 4) ==> !plausible,
        name@ == own_image_name() ==> !plausible,
        forall|token: Seq<char>|
            denylist().contains(token) && #[trigger] holds_mixed_case(name@, token) ==> !plausible,
{
    proof {
        assert forall|token: Seq<char>|
            denylist().contains(token) && #[trigger] holds_mixed_case(
                name@,
                token,
            ) implies !plausible_user_app(*pid, name@) by {
            lemma_denylisted_token_excludes(*pid, name@, token);
        }
    }
    let chars: Vec<char> = chars_of(name.as_str());
    let ghost low = lowered(name@);
    let listed: bool = lowered_contains(&chars, "service") || lowered_contains(&chars, "helper")
        || lowered_contains(&chars, "overlay") || lowered_contains(&chars, "tray")
        || lowered_contains(&chars, "host") || lowered_contains(&chars, "broker")
        || lowered_contains(&chars, "container") || lowered_contains(&chars, "runtime")
        || lowered_contains(&chars, "svchost") || lowered_contains(&chars, "dwm")
        || lowered_contains(&chars, "explorer") || lowered_contains(&chars, "taskmgr");
    proof {
        let d = denylist();
        assert(d.len() == 12);
        assert(d[0] == "service"@ && d[1] == "helper"@ && d[2] == "overlay"@ && d[3] == "tray"@);
        assert(d[4] == "host"@ && d[5] == "broker"@ && d[6] == "container"@ && d[7]
            == "runtime"@);
        assert(d[8] == "svchost"@ && d[9] == "dwm"@ && d[10] == "explorer"@ && d[11]
            == "taskmgr"@);
        if listed {
            assert(names_denylisted(name@));
        } else {
            assert forall|k: int| 0 <= k < d.len() implies !has_run(low, #[trigger] d[k]) by {}
        }
    }
    let own: String = String::from_str("expurgate.exe");
    !listed && *pid != 0 && *pid != 4 && !(*name == own)
}

/// The index of the last `.` in `s`, or -1 where it has none.
pub open spec fn last_dot(s: Seq<char>) -> int
    decreases s.len(),
{
    if s.len() == 0 {
        -1
    } else if s.last() == '.' {
        s.len() - 1
    } else {
        last_dot(s.drop_last())
    }
}

/// `last_dot` finds a `.` after which no other follows, and is -1 only where
/// there is none at all.
pub proof fn lemma_last_dot(s: Seq<char>)
    ensures
        -1 <= last_dot(s) < s.len(),
        last_dot(s) >= 0 ==> s[last_dot(s)] == '.',
        forall|i: int| last_dot(s) < i < s.len() ==> s[i] != '.',
    decreases s.len(),
{
    if s.len() > 0 && s.last() != '.' {
        lemma_last_dot(s.drop_last());
        assert forall|i: int| last_dot(s) < i < s.len() implies s[i] != '.' by {
            if i < s.len() - 1 {
                assert(s.drop_last()[i] == s[i]);
            }
        }
    }
}

/// A file name without its extension: what stands before the last `.`. A
/// name without a `.`, or whose only `.` is its first character, has no
/// extension and is its own stem.
pub open spec fn stem(s: Seq<char>) -> Seq<char> {
    if last_dot(s) > 0 {
        s.subrange(0, last_dot(s))
    } else {
        s
    }
}

/// The form of an image name that is shown to the user: the name without its
/// file extension. The lists themselves keep the full name.
pub fn strip_file_extension(s: &String) -> (shown: String)
    ensures
        shown@ == stem(s@),
{
    let chars: Vec<char> = chars_of(s.as_str());
    let n: usize = chars.len();
    let mut i: usize = n;
    assert(s@.subrange(0, n as int) =~= s@);
    while i > 0 && chars[i - 1] != '.'
        invariant
            chars@ == s@,
            n == chars@.len(),
            i <= n,
            last_dot(s@) == last_dot(s@.subrange(0, i as int)),
        decreases i,
    {
        proof {
            let t = s@.subrange(0, i as int);
            assert(t.drop_last() =~= s@.subrange(0, i - 1));
        }
        i = i - 1;
    }
    if i > 1 {
        String::from_str(s.as_str().substring_char(0, i - 1))
    } else {
        s.clone()
    }
}

} // verus!
