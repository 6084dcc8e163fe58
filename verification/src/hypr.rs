//! The `hyprctl` commands the worker sends, and what it reads from their
//! output.

use vstd::prelude::*;

use crate::state::strs;
use crate::text::{
    owned,
    append_chars, chars_of, contains, decimal, decimal_chars, has_infix, has_prefix, lossy_string,
    lossy_utf8, split, split_on, starts_with, str_eq, string_of, trim, trimmed, views,
};

verus! {

/// `prefix` followed by `tail`.
fn joined(prefix: &str, tail: &str) -> (r: String)
    ensures
        r@ == prefix@ + tail@,
{
    let mut v = chars_of(prefix);
    append_chars(&mut v, chars_of(tail).as_slice());
    string_of(v.as_slice())
}

/// The `hyprctl` arguments that start `command` inside the session.
pub fn exec_args(command: &str) -> (r: Vec<String>)
    ensures
        strs(r@) == seq!["dispatch"@, "exec"@, command@],
{
    let mut r: Vec<String> = Vec::new();
    r.push(owned("dispatch"));
    r.push(owned("exec"));
    r.push(owned(command));
    assert(strs(r@) =~= seq!["dispatch"@, "exec"@, command@]);
    r
}

/// The `hyprctl` arguments that close the window of `class`.
pub fn close_window_args(class: &str) -> (r: Vec<String>)
    ensures
        strs(r@) == seq!["dispatch"@, "closewindow"@, "class:"@ + class@],
{
    let mut r: Vec<String> = Vec::new();
    r.push(owned("dispatch"));
    r.push(owned("closewindow"));
    r.push(joined("class:", class));
    assert(strs(r@) =~= seq!["dispatch"@, "closewindow"@, "class:"@ + class@]);
    r
}

/// The `hyprctl` arguments that move the window of `class`, without
/// following it, to workspace `ws`.
pub fn move_workspace_args(class: &str, ws: u32) -> (r: Vec<String>)
    ensures
        strs(r@) == seq![
            "dispatch"@,
            "movetoworkspacesilent"@,
            decimal(ws as nat) + ",class:"@ + class@,
        ],
{
    let mut target = decimal_chars(ws as u64);
    append_chars(&mut target, chars_of(",class:").as_slice());
    append_chars(&mut target, chars_of(class).as_slice());
    let mut r: Vec<String> = Vec::new();
    r.push(owned("dispatch"));
    r.push(owned("movetoworkspacesilent"));
    r.push(string_of(target.as_slice()));
    assert(strs(r@) =~= seq![
        "dispatch"@,
        "movetoworkspacesilent"@,
        decimal(ws as nat) + ",class:"@ + class@,
    ]);
    r
}

/// The `hyprctl` arguments that move the window of `class` to the special
/// workspace.
pub fn hide_to_special_args(class: &str) -> (r: Vec<String>)
    ensures
        strs(r@) == seq!["dispatch"@, "movetoworkspacesilent"@, "special,class:"@ + class@],
{
    let mut r: Vec<String> = Vec::new();
    r.push(owned("dispatch"));
    r.push(owned("movetoworkspacesilent"));
    r.push(joined("special,class:", class));
    assert(strs(r@) =~= seq!["dispatch"@, "movetoworkspacesilent"@, "special,class:"@ + class@]);
    r
}

/// The `hyprctl` arguments that bring the window of `class` back from the
/// special workspace to the current one.
pub fn show_from_special_args(class: &str) -> (r: Vec<String>)
    ensures
        strs(r@) == seq!["dispatch"@, "movetoworkspace"@, "+0,class:"@ + class@],
{
    let mut r: Vec<String> = Vec::new();
    r.push(owned("dispatch"));
    r.push(owned("movetoworkspace"));
    r.push(joined("+0,class:", class));
    assert(strs(r@) =~= seq!["dispatch"@, "movetoworkspace"@, "+0,class:"@ + class@]);
    r
}

/// The `sh` arguments that run `command` directly (the fallback launch).
pub fn shell_args(command: &str) -> (r: Vec<String>)
    ensures
        strs(r@) == seq!["-c"@, command@],
{
    let mut r: Vec<String> = Vec::new();
    r.push(owned("-c"));
    r.push(owned(command));
    assert(strs(r@) =~= seq!["-c"@, command@]);
    r
}

/// The `hyprctl` arguments that list the open windows.
pub fn clients_args() -> (r: Vec<String>)
    ensures
        strs(r@) == seq!["clients"@],
{
    let mut r: Vec<String> = Vec::new();
    r.push(owned("clients"));
    assert(strs(r@) =~= seq!["clients"@]);
    r
}

/// The `hyprctl` arguments that ask the instance `signature` for its
/// monitors, as JSON.
pub fn monitors_args(signature: &str) -> (r: Vec<String>)
    ensures
        strs(r@) == seq!["-i"@, signature@, "monitors"@, "-j"@],
{
    let mut r: Vec<String> = Vec::new();
    r.push(owned("-i"));
    r.push(owned(signature));
    r.push(owned("monitors"));
    r.push(owned("-j"));
    assert(strs(r@) =~= seq!["-i"@, signature@, "monitors"@, "-j"@]);
    r
}

/// The text that marks a window of `class` in the `hyprctl clients` listing.
pub open spec fn class_marker(class: Seq<char>) -> Seq<char> {
    "class: "@ + class
}

/// The number of lines of `listing` that mention the window class `class`.
pub open spec fn windows_of(listing: Seq<char>, class: Seq<char>) -> nat {
    split_on(listing, '\n').filter(|l: Seq<char>| has_infix(l, class_marker(class))).len()
}

/// How many windows of `class` the `hyprctl clients` output `output` lists:
/// the lines of the (lossily decoded) output that contain `class: <class>`.
pub fn window_count(output: &[u8], class: &str) -> (r: usize)
    ensures
        r == windows_of(lossy_utf8(output@), class@),
{
    windows_in_listing(lossy_string(output).as_str(), class)
}

/// How many lines of the `hyprctl clients` listing `listing` contain
/// `class: <class>`.
pub fn windows_in_listing(listing: &str, class: &str) -> (r: usize)
    ensures
        r == windows_of(listing@, class@),
{
    let text = chars_of(listing);
    let mut marker = chars_of("class: ");
    append_chars(&mut marker, chars_of(class).as_slice());
    let pieces = split(text.as_slice(), '\n');
    let ghost ps = views(pieces@);
    let ghost m = marker@;
    let ghost pred = |l: Seq<char>| has_infix(l, m);
    let mut n: usize = 0;
    let mut i: usize = 0;
    while i < pieces.len()
        invariant
            i <= pieces@.len(),
            ps == views(pieces@),
            m == marker@,
            pred == (|l: Seq<char>| has_infix(l, m)),
            n == ps.take(i as int).filter(pred).len(),
            n <= i,
        decreases pieces@.len() - i,
    {
        proof {
            reveal_with_fuel(Seq::<_>::filter, 1);
            assert(ps.take(i + 1).drop_last() =~= ps.take(i as int));
        }
        if contains(pieces[i].as_slice(), marker.as_slice()) {
            n = n + 1;
        }
        i = i + 1;
    }
    assert(ps.take(i as int) =~= ps);
    n
}

/// Whether a `hyprctl monitors -j` reply lists at least one monitor: the
/// trimmed text starts with `[` and is not the empty list `[]`.
pub open spec fn lists_monitors(reply: Seq<char>) -> bool {
    has_prefix(trimmed(reply), "["@) && trimmed(reply) != "[]"@
}

/// Whether the instance answered with a usable monitor list.
pub fn monitors_ready(output: &[u8]) -> (r: bool)
    ensures
        r == lists_monitors(lossy_utf8(output@)),
{
    reply_lists_monitors(lossy_string(output).as_str())
}

/// Whether the (decoded) `hyprctl monitors -j` reply `reply` lists a
/// monitor.
pub fn reply_lists_monitors(reply: &str) -> (r: bool)
    ensures
        r == lists_monitors(reply@),
{
    let text = chars_of(reply);
    let t = trim(text.as_slice());
    let open = chars_of("[");
    let empty = chars_of("[]");
    starts_with(t.as_slice(), open.as_slice()) && !crate::text::same_chars(
        t.as_slice(),
        empty.as_slice(),
    )
}

/// Whether a directory is a Hyprland session directory, given the names of
/// the files that exist in it: it holds `.socket.sock` or `.socket2.sock`.
pub fn is_session_dir(present: &Vec<String>) -> (r: bool)
    ensures
        r == (strs(present@).contains(".socket.sock"@) || strs(present@).contains(
            ".socket2.sock"@,
        )),
{
    let ghost names = strs(present@);
    let mut i: usize = 0;
    while i < present.len()
        invariant
            i <= present@.len(),
            names == strs(present@),
            forall|k: int|
                0 <= k < i ==> names[k] != ".socket.sock"@ && names[k] != ".socket2.sock"@,
        decreases present@.len() - i,
    {
        if str_eq(present[i].as_str(), ".socket.sock") || str_eq(
            present[i].as_str(),
            ".socket2.sock",
        ) {
            assert(names[i as int] == present@[i as int]@);
            return true;
        }
        i = i + 1;
    }
    false
}

/// What waiting for the session does after one search for a live instance.
#[derive(Clone, Copy, Debug, PartialEq, Eq, Structural)]
pub enum SessionWait {
    /// A live instance was found; `export` tells whether its signature must
    /// be put into `HYPRLAND_INSTANCE_SIGNATURE` first.
    Ready { export: bool },
    /// No instance answered before the deadline.
    GiveUp,
    /// Nothing yet: pause and search again.
    Retry,
}

/// The decision after one search: a live instance wins; otherwise give up
/// once the deadline has passed, else search again.
pub open spec fn session_wait(
    found: Option<Seq<char>>,
    current: Option<Seq<char>>,
    deadline_passed: bool,
) -> SessionWait {
    match found {
        Some(sig) => SessionWait::Ready { export: current != Some(sig) },
        None => if deadline_passed {
            SessionWait::GiveUp
        } else {
            SessionWait::Retry
        },
    }
}

/// Law: with no live instance found the worker gives up exactly when the
/// deadline has passed and searches again otherwise, whatever signature the
/// environment holds; a live instance always ends the wait, and its
/// signature is exported exactly when the environment holds another one.
pub proof fn lemma_wait_until_deadline()
    ensures
        forall|current: Option<Seq<char>>, passed: bool|
            #[trigger] session_wait(None, current, passed) == (if passed {
                SessionWait::GiveUp
            } else {
                SessionWait::Retry
            }),
        forall|sig: Seq<char>, current: Option<Seq<char>>, passed: bool|
            #[trigger] session_wait(Some(sig), current, passed) == (SessionWait::Ready {
                export: current != Some(sig),
            }),
        forall|found: Option<Seq<char>>, current: Option<Seq<char>>, passed: bool|
            (#[trigger] session_wait(found, current, passed) is GiveUp) <==> (found is None
                && passed),
{
}

/// The optional view of an optional string.
pub open spec fn opt_view(s: Option<String>) -> Option<Seq<char>> {
    match s {
        Some(x) => Some(x@),
        None => None,
    }
}

/// Decides the next move of `wait_for_session`, given the signature of the
/// live instance found (if any), the signature in the environment (if any),
/// and whether the deadline has passed.
pub fn wait_for_session_step(
    found: &Option<String>,
    current: &Option<String>,
    deadline_passed: bool,
) -> (r: SessionWait)
    ensures
        r == session_wait(opt_view(*found), opt_view(*current), deadline_passed),
{
    match found {
        Some(sig) => {
            let same = match current {
                Some(cur) => str_eq(cur.as_str(), sig.as_str()),
                None => false,
            };
            SessionWait::Ready { export: !same }
        },
        None => {
            if deadline_passed {
                SessionWait::GiveUp
            } else {
                SessionWait::Retry
            }
        },
    }
}


/// A directory found under `$XDG_RUNTIME_DIR/hypr`: when it was last
/// modified (nanoseconds from the Unix epoch, negative before it) and its
/// name, which is the signature of a Hyprland instance.
#[derive(Clone, Debug)]
pub struct SessionCandidate {
    pub modified: i128,
    pub signature: String,
}

/// The place of a candidate modified at `key` among candidates ordered newest
/// first: after every candidate that is at least as new.
pub open spec fn newest_place(sorted: Seq<SessionCandidate>, key: i128) -> int
    decreases sorted.len(),
{
    if sorted.len() == 0 || sorted[0].modified < key {
        0
    } else {
        1 + newest_place(sorted.drop_first(), key)
    }
}

/// The candidates ordered newest first; candidates modified at the same time
/// keep their order (a stable sort, as `sort_by_key` with `Reverse` does).
pub open spec fn newest_first(found: Seq<SessionCandidate>) -> Seq<SessionCandidate>
    decreases found.len(),
{
    if found.len() == 0 {
        Seq::<SessionCandidate>::empty()
    } else {
        let sorted = newest_first(found.drop_last());
        sorted.insert(newest_place(sorted, found.last().modified), found.last())
    }
}

/// Whether the candidates are ordered newest first.
pub open spec fn is_newest_first(s: Seq<SessionCandidate>) -> bool {
    forall|i: int, j: int| 0 <= i < j < s.len() ==> s[i].modified >= s[j].modified
}

proof fn lemma_newest_place(sorted: Seq<SessionCandidate>, key: i128)
    ensures
        0 <= newest_place(sorted, key) <= sorted.len(),
        is_newest_first(sorted) ==> forall|i: int|
            0 <= i < newest_place(sorted, key) ==> sorted[i].modified >= key,
        newest_place(sorted, key) < sorted.len() ==> sorted[newest_place(sorted, key)].modified
            < key,
    decreases sorted.len(),
{
    if sorted.len() > 0 && sorted[0].modified >= key {
        let rest = sorted.drop_first();
        lemma_newest_place(rest, key);
        if is_newest_first(sorted) {
            assert forall|i: int, j: int| 0 <= i < j < rest.len() implies rest[i].modified
                >= rest[j].modified by {
                assert(rest[i] == sorted[i + 1]);
                assert(rest[j] == sorted[j + 1]);
            }
            assert forall|i: int| 0 <= i < newest_place(sorted, key) implies sorted[i].modified
                >= key by {
                if i > 0 {
                    assert(sorted[i] == rest[i - 1]);
                }
            }
        }
        if newest_place(sorted, key) < sorted.len() {
            assert(sorted[newest_place(sorted, key)] == rest[newest_place(rest, key)]);
        }
    }
}

/// Law: `newest_first` orders the candidates newest first and keeps every
/// one of them, each as often as it was found.
pub proof fn lemma_newest_first(found: Seq<SessionCandidate>)
    ensures
        is_newest_first(newest_first(found)),
        newest_first(found).to_multiset() == found.to_multiset(),
    decreases found.len(),
{
    broadcast use vstd::seq_lib::to_multiset_build, vstd::seq_lib::to_multiset_insert;

    if found.len() > 0 {
        let before = found.drop_last();
        lemma_newest_first(before);
        let sorted = newest_first(before);
        let x = found.last();
        let p = newest_place(sorted, x.modified);
        lemma_newest_place(sorted, x.modified);
        let after = sorted.insert(p, x);
        sorted.insert_ensures(p, x);
        assert forall|i: int, j: int| 0 <= i < j < after.len() implies after[i].modified
            >= after[j].modified by {
            if j < p {
            } else if j == p {
            } else if i < p {
                assert(after[j] == sorted[j - 1]);
                if p < sorted.len() {
                    assert(sorted[p].modified < x.modified);
                    assert(sorted[i].modified >= sorted[j - 1].modified);
                }
            } else if i == p {
                assert(after[j] == sorted[j - 1]);
                assert(sorted[p].modified >= sorted[j - 1].modified);
            } else {
                assert(after[i] == sorted[i - 1]);
                assert(after[j] == sorted[j - 1]);
            }
        }
        assert(found =~= before.push(x));
    } else {
        assert(found.to_multiset() =~= newest_first(found).to_multiset()) by {
            broadcast use vstd::seq_lib::group_to_multiset_ensures;

        }
    }
}

/// Orders the session candidates newest first, so the most recent instance
/// is tried first.
pub fn order_sessions(found: Vec<SessionCandidate>) -> (r: Vec<SessionCandidate>)
    ensures
        r@ == newest_first(found@),
{
    let ghost all = found@;
    let mut sorted: Vec<SessionCandidate> = Vec::new();
    for c in it: found.into_iter()
        invariant
            it.seq() == all,
            sorted@ == newest_first(all.take(it.index() as int)),
    {
        proof {
            assert(all.take(it.index() + 1).drop_last() =~= all.take(it.index() as int));
        }
        let ghost before = sorted@;
        assert(before.subrange(0, before.len() as int) =~= before);
        let mut p: usize = 0;
        while p < sorted.len() && sorted[p].modified >= c.modified
            invariant
                p <= sorted@.len(),
                sorted@ == before,
                newest_place(before, c.modified) == p + newest_place(
                    before.subrange(p as int, before.len() as int),
                    c.modified,
                ),
            decreases sorted@.len() - p,
        {
            assert(before.subrange(p as int, before.len() as int).drop_first() =~= before.subrange(
                p + 1,
                before.len() as int,
            ));
            p = p + 1;
        }
        proof {
            if p < before.len() {
                assert(before.subrange(p as int, before.len() as int)[0] == before[p as int]);
            } else {
                assert(before.subrange(p as int, before.len() as int).len() == 0);
            }
            assert(all.take(it.index() + 1).last() == c);
        }
        sorted.insert(p, c);
    }
    proof {
        assert(all.take(all.len() as int) =~= all);
    }
    sorted
}

} // verus!
