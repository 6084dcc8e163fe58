//! The persistent configuration (rules and settings) and the runtime state
//! that goes with it: hidden applications and captured console output.

use vstd::prelude::*;

use crate::text::{append_chars, chars_of, decimal, decimal_chars, owned, str_eq, string_of};
use crate::CURRENT_VERSION;

verus! {

/// The identifier under which the settings window registers itself.
pub const APP_ID: &'static str = "dev.agzes.totray";

/// How many console lines are kept for one application.
pub const LOG_LIMIT: usize = 500;

/// What happens to an application's window once it appears.
#[derive(Clone, Copy, Debug, PartialEq, Eq, Structural)]
pub enum Action {
    /// Close the window as soon as it appears.
    Close,
    /// Close the window, wait, and close the next one too (splash screens).
    Close2,
    /// Move the window, silently, to the given workspace.
    Workspace(u32),
    /// Move the window to the special workspace and list it in the tray.
    HideToTray,
}

/// One autostart rule: the window class to watch, the command that starts
/// the application, and what to do with its window.
#[derive(Clone, Debug)]
pub struct AppRule {
    pub name: String,
    pub command: String,
    pub action: Action,
}

/// The captured console output of one application.
#[derive(Debug)]
pub struct AppLog {
    name: String,
    lines: Vec<String>,
}

impl AppLog {
    /// Same name and same lines.
    pub closed spec fn alike(self, other: AppLog) -> bool {
        self.name@ == other.name@ && self.lines@ == other.lines@
    }
}

impl Clone for AppLog {
    fn clone(&self) -> (r: Self)
        ensures
            r.alike(*self),
    {
        let lines = self.lines.clone();
        assert(lines@ =~= self.lines@);
        AppLog { name: self.name.clone(), lines }
    }
}

/// The views of a vector of strings.
pub open spec fn strs(v: Seq<String>) -> Seq<Seq<char>> {
    v.map_values(|s: String| s@)
}

/// The lines kept after `line` is added to a log that held `kept`: the line
/// is appended, and the oldest line goes once there are more than
/// `LOG_LIMIT`.
pub open spec fn logged(kept: Seq<Seq<char>>, line: Seq<char>) -> Seq<Seq<char>> {
    let all = kept.push(line);
    if all.len() > LOG_LIMIT {
        all.drop_first()
    } else {
        all
    }
}

/// The log of the first entry named `name`, if there is one.
spec fn find_log(entries: Seq<AppLog>, name: Seq<char>) -> Option<Seq<Seq<char>>>
    decreases entries.len(),
{
    if entries.len() == 0 {
        None
    } else if entries[0].name@ == name {
        Some(strs(entries[0].lines@))
    } else {
        find_log(entries.drop_first(), name)
    }
}

/// Captured console output, by application name, of at most `LOG_LIMIT`
/// lines each.
#[derive(Debug)]
pub struct LogBook {
    entries: Vec<AppLog>,
}

impl Clone for LogBook {
    fn clone(&self) -> (r: Self)
        ensures
            forall|name: Seq<char>| r.log(name) == self.log(name),
    {
        proof {
            use_type_invariant(self);
        }
        let entries = self.entries.clone();
        proof {
            assert forall|name: Seq<char>| true implies find_log(entries@, name) == find_log(
                self.entries@,
                name,
            ) by {
                lemma_find_log_alike(entries@, self.entries@, name);
            }
        }
        LogBook { entries }
    }
}

proof fn lemma_find_log_push(entries: Seq<AppLog>, e: AppLog, name: Seq<char>)
    ensures
        find_log(entries.push(e), name) == (if find_log(entries, name) is Some {
            find_log(entries, name)
        } else if e.name@ == name {
            Some(strs(e.lines@))
        } else {
            None
        }),
    decreases entries.len(),
{
    if entries.len() > 0 {
        assert(entries.push(e).drop_first() =~= entries.drop_first().push(e));
        assert(entries.push(e)[0] == entries[0]);
        lemma_find_log_push(entries.drop_first(), e, name);
    } else {
        assert(entries.push(e).drop_first() =~= Seq::<AppLog>::empty());
        assert(entries.push(e)[0] == e);
        assert(find_log(Seq::<AppLog>::empty(), name) is None);
        assert(find_log(entries, name) is None);
    }
}

proof fn lemma_find_log_alike(a: Seq<AppLog>, b: Seq<AppLog>, name: Seq<char>)
    requires
        a.len() == b.len(),
        forall|i: int|
            0 <= i < a.len() ==> (#[trigger] a[i]).alike(b[i]),
    ensures
        find_log(a, name) == find_log(b, name),
    decreases a.len(),
{
    if a.len() > 0 {
        assert forall|i: int| 0 <= i < a.len() - 1 implies (#[trigger] a.drop_first()[i]).alike(
            b.drop_first()[i],
        ) by {
            assert(a.drop_first()[i] == a[i + 1]);
            assert(b.drop_first()[i] == b[i + 1]);
        }
        assert(a[0].name@ == b[0].name@);
        lemma_find_log_alike(a.drop_first(), b.drop_first(), name);
    }
}

proof fn lemma_find_log_update(entries: Seq<AppLog>, i: int, e: AppLog, name: Seq<char>)
    requires
        0 <= i < entries.len(),
        e.name@ == entries[i].name@,
        forall|k: int| 0 <= k < i ==> (#[trigger] entries[k]).name@ != entries[i].name@,
    ensures
        find_log(entries.update(i, e), name) == (if name == e.name@ {
            Some(strs(e.lines@))
        } else {
            find_log(entries, name)
        }),
    decreases i,
{
    if i > 0 {
        assert(entries.update(i, e).drop_first() =~= entries.drop_first().update(i - 1, e));
        assert forall|k: int| 0 <= k < i - 1 implies (
        #[trigger] entries.drop_first()[k]).name@ != entries.drop_first()[i - 1].name@ by {
            assert(entries.drop_first()[k] == entries[k + 1]);
        }
        lemma_find_log_update(entries.drop_first(), i - 1, e, name);
        assert(entries.update(i, e)[0] == entries[0]);
    } else {
        assert(entries.update(i, e).drop_first() =~= entries.drop_first());
        assert(entries.update(i, e)[0] == e);
    }
}

proof fn lemma_find_log_prefix(entries: Seq<AppLog>, i: int, name: Seq<char>)
    requires
        0 <= i <= entries.len(),
        forall|k: int| 0 <= k < i ==> (#[trigger] entries[k]).name@ != name,
    ensures
        find_log(entries, name) == find_log(entries.subrange(i, entries.len() as int), name),
    decreases i,
{
    if i > 0 {
        assert(entries.drop_first().subrange(i - 1, entries.drop_first().len() as int)
            =~= entries.subrange(i, entries.len() as int));
        assert forall|k: int| 0 <= k < i - 1 implies (
        #[trigger] entries.drop_first()[k]).name@ != name by {
            assert(entries.drop_first()[k] == entries[k + 1]);
        }
        lemma_find_log_prefix(entries.drop_first(), i - 1, name);
    } else {
        assert(entries.subrange(0, entries.len() as int) =~= entries);
    }
}

impl LogBook {
    #[verifier::type_invariant]
    spec fn bounded(self) -> bool {
        forall|i: int| 0 <= i < self.entries@.len() ==> (#[trigger] self.entries@[i]).lines@.len()
            <= LOG_LIMIT
    }

    /// The lines kept for the application `name`, if any were captured.
    pub closed spec fn log(self, name: Seq<char>) -> Option<Seq<Seq<char>>> {
        find_log(self.entries@, name)
    }

    /// An empty log book.
    pub fn new() -> (r: Self)
        ensures
            forall|name: Seq<char>| r.log(name) is None,
    {
        LogBook { entries: Vec::new() }
    }

    /// Index of the first entry named `name`, or the number of entries.
    fn position(&self, name: &[char]) -> (r: usize)
        ensures
            r <= self.entries@.len(),
            forall|k: int| 0 <= k < r ==> (#[trigger] self.entries@[k]).name@ != name@,
            r < self.entries@.len() ==> self.entries@[r as int].name@ == name@,
    {
        let mut i: usize = 0;
        while i < self.entries.len()
            invariant
                i <= self.entries@.len(),
                forall|k: int| 0 <= k < i ==> (#[trigger] self.entries@[k]).name@ != name@,
            decreases self.entries@.len() - i,
        {
            let candidate = chars_of(self.entries[i].name.as_str());
            if crate::text::same_chars(candidate.as_slice(), name) {
                return i;
            }
            i = i + 1;
        }
        i
    }

    /// Adds one captured line to the log of `name`, dropping that log's
    /// oldest line when it would exceed `LOG_LIMIT`.
    pub fn record(&mut self, name: &str, line: String)
        ensures
            final(self).log(name@) == Some(
                logged(
                    match old(self).log(name@) {
                        Some(l) => l,
                        None => Seq::<Seq<char>>::empty(),
                    },
                    line@,
                ),
            ),
            forall|other: Seq<char>| other != name@ ==> final(self).log(other) == old(self).log(other),
            final(self).log(name@)->0.len() <= LOG_LIMIT,
    {
        proof {
            use_type_invariant(&*self);
        }
        let key = chars_of(name);
        let i = self.position(key.as_slice());
        proof {
            lemma_find_log_prefix(self.entries@, i as int, name@);
        }
        if i == self.entries.len() {
            let mut lines: Vec<String> = Vec::new();
            lines.push(line);
            let entry = AppLog { name: string_of(key.as_slice()), lines };
            proof {
                assert(self.entries@.subrange(i as int, i as int) =~= Seq::<AppLog>::empty());
                assert(strs(entry.lines@) =~= logged(Seq::<Seq<char>>::empty(), line@));
                assert forall|other: Seq<char>| true implies find_log(self.entries@.push(entry), other)
                    == (if find_log(self.entries@, other) is Some {
                    find_log(self.entries@, other)
                } else if entry.name@ == other {
                    Some(strs(entry.lines@))
                } else {
                    None
                }) by {
                    lemma_find_log_push(self.entries@, entry, other);
                }
            }
            let mut entries: Vec<AppLog> = Vec::new();
            std::mem::swap(&mut entries, &mut self.entries);
            entries.push(entry);
            self.entries = entries;
        } else {
            let ghost old_entries = self.entries@;
            let mut lines = self.entries[i].lines.clone();
            let ghost kept = strs(lines@);
            assert(kept =~= strs(old_entries[i as int].lines@));
            lines.push(line);
            if lines.len() > LOG_LIMIT {
                lines.remove(0);
            }
            assert(strs(lines@) =~= logged(kept, line@));
            let entry = AppLog { name: self.entries[i].name.clone(), lines };
            proof {
                assert forall|other: Seq<char>| true implies find_log(
                    old_entries.update(i as int, entry),
                    other,
                ) == (if other == entry.name@ {
                    Some(strs(entry.lines@))
                } else {
                    find_log(old_entries, other)
                }) by {
                    lemma_find_log_update(old_entries, i as int, entry, other);
                }
            }
            let mut entries: Vec<AppLog> = Vec::new();
            std::mem::swap(&mut entries, &mut self.entries);
            entries.set(i, entry);
            self.entries = entries;
        }
    }

    /// The console text of `name`: each kept line followed by a newline.
    pub fn console_text(&self, name: &str) -> (r: Option<String>)
        ensures
            match (r, self.log(name@)) {
                (Some(t), Some(l)) => t@ == console_of(l),
                (None, None) => true,
                _ => false,
            },
    {
        let key = chars_of(name);
        let i = self.position(key.as_slice());
        proof {
            lemma_find_log_prefix(self.entries@, i as int, name@);
        }
        if i == self.entries.len() {
            proof {
                assert(self.entries@.subrange(i as int, i as int) =~= Seq::<AppLog>::empty());
            }
            return None;
        }
        let lines = &self.entries[i].lines;
        let ghost ls = strs(lines@);
        let mut text: Vec<char> = Vec::new();
        let mut k: usize = 0;
        while k < lines.len()
            invariant
                k <= lines@.len(),
                ls == strs(lines@),
                text@ == console_of(ls.take(k as int)),
            decreases lines@.len() - k,
        {
            assert(ls.take(k + 1).drop_last() =~= ls.take(k as int));
            let line = chars_of(lines[k].as_str());
            append_chars(&mut text, line.as_slice());
            text.push('\n');
            k = k + 1;
        }
        assert(ls.take(lines@.len() as int) =~= ls);
        Some(string_of(text.as_slice()))
    }
}

/// Log lines as the console window shows them: each line ends with `\n`.
pub open spec fn console_of(lines: Seq<Seq<char>>) -> Seq<char>
    decreases lines.len(),
{
    if lines.len() == 0 {
        Seq::<char>::empty()
    } else {
        console_of(lines.drop_last()) + lines.last().push('\n')
    }
}


/// The whole configuration and runtime state of the application.
#[derive(Clone, Debug)]
pub struct AppState {
    /// The autostart rules, in the order they run.
    pub apps: Vec<AppRule>,
    /// Milliseconds to wait after a window appears before acting on it.
    pub launch_delay: u64,
    /// Whether a desktop notification announces each launch.
    pub notifications: bool,
    /// Whether the worker starts with the session.
    pub auto_start: bool,
    /// Whether the worker opens the settings window when it starts.
    pub silent_mode: bool,
    /// Whether the rules run side by side instead of one after the other.
    pub multi_launch: bool,
    /// The version whose settings page was last acknowledged.
    pub last_run_version: Option<String>,
    /// Whether the first-run notice was acknowledged.
    pub shown_warning: bool,
    /// Whether the desktop entry was installed (or the step skipped).
    pub desktop_installed: bool,
    /// Classes of the windows currently hidden in the tray (not persisted).
    pub hidden_apps: Vec<String>,
    /// Captured console output of launched applications (not persisted).
    pub logs: LogBook,
}

/// The rules whose window class is not `name`, in their order.
pub open spec fn rules_not_named(rules: Seq<AppRule>, name: Seq<char>) -> Seq<AppRule> {
    rules.filter(|r: AppRule| r.name@ != name)
}

/// `names` without every occurrence of `name`, in order.
pub open spec fn without(names: Seq<Seq<char>>, name: Seq<char>) -> Seq<Seq<char>> {
    names.filter(|a: Seq<char>| a != name)
}

/// `names` with `name` appended, unless it is already there.
pub open spec fn with_name(names: Seq<Seq<char>>, name: Seq<char>) -> Seq<Seq<char>> {
    if names.contains(name) {
        names
    } else {
        names.push(name)
    }
}

/// The tray tooltip's description for a number of rules and hidden windows.
pub open spec fn tool_tip_of(rules: nat, hidden: nat) -> Seq<char> {
    "Managing "@ + decimal(rules) + " active rules \u{2022} "@ + decimal(hidden) + " apps hidden"@
}

/// The label of the tray menu entry that brings `name` back.
pub open spec fn show_label(name: Seq<char>) -> Seq<char> {
    "Show "@ + name
}

impl AppState {
    /// The persisted settings other than the rules.
    pub open spec fn settings(self) -> (u64, bool, bool, bool, bool, Option<Seq<char>>, bool, bool) {
        (
            self.launch_delay,
            self.notifications,
            self.auto_start,
            self.silent_mode,
            self.multi_launch,
            match self.last_run_version {
                Some(v) => Some(v@),
                None => None,
            },
            self.shown_warning,
            self.desktop_installed,
        )
    }

    /// Everything but the rules is as in `other`.
    pub open spec fn same_but_rules(self, other: AppState) -> bool {
        &&& self.settings() == other.settings()
        &&& self.hidden_apps == other.hidden_apps
        &&& self.logs == other.logs
    }

    /// Everything but the hidden windows is as in `other`.
    pub open spec fn same_but_hidden(self, other: AppState) -> bool {
        &&& self.settings() == other.settings()
        &&& self.apps == other.apps
        &&& self.logs == other.logs
    }

    /// Appends a rule; nothing else changes.
    pub fn add_rule(&mut self, rule: AppRule)
        ensures
            final(self).apps@ == old(self).apps@.push(rule),
            final(self).same_but_rules(*old(self)),
    {
        self.apps.push(rule);
    }

    /// Removes every rule for the window class `name`; the others keep their
    /// order and nothing else changes.
    pub fn remove_rules_named(&mut self, name: &str)
        ensures
            final(self).apps@ == rules_not_named(old(self).apps@, name@),
            final(self).same_but_rules(*old(self)),
    {
        let mut rules: Vec<AppRule> = Vec::new();
        std::mem::swap(&mut rules, &mut self.apps);
        let ghost all = rules@;
        let mut kept: Vec<AppRule> = Vec::new();
        for r in it: rules.into_iter()
            invariant
                it.seq() == all,
                kept@ == rules_not_named(all.take(it.index() as int), name@),
        {
            proof {
                reveal_with_fuel(Seq::<_>::filter, 1);
                assert(all.take(it.index() + 1).drop_last() =~= all.take(it.index() as int));
            }
            if !str_eq(r.name.as_str(), name) {
                kept.push(r);
            }
        }
        proof {
            assert(all.take(all.len() as int) =~= all);
        }
        self.apps = kept;
    }

    /// Lists `name` among the hidden windows, once.
    pub fn mark_hidden(&mut self, name: &str)
        ensures
            strs(final(self).hidden_apps@) == with_name(strs(old(self).hidden_apps@), name@),
            final(self).same_but_hidden(*old(self)),
    {
        let ghost names = strs(self.hidden_apps@);
        let mut i: usize = 0;
        while i < self.hidden_apps.len()
            invariant
                i <= self.hidden_apps@.len(),
                names == strs(self.hidden_apps@),
                forall|k: int| 0 <= k < i ==> names[k] != name@,
            decreases self.hidden_apps@.len() - i,
        {
            if str_eq(self.hidden_apps[i].as_str(), name) {
                assert(names[i as int] == name@);
                return;
            }
            i = i + 1;
        }
        assert(!names.contains(name@));
        let n = owned(name);
        self.hidden_apps.push(n);
        assert(strs(self.hidden_apps@) =~= names.push(name@));
    }

    /// Removes every occurrence of `name` from the hidden windows.
    pub fn unhide(&mut self, name: &str)
        ensures
            strs(final(self).hidden_apps@) == without(strs(old(self).hidden_apps@), name@),
            final(self).same_but_hidden(*old(self)),
    {
        let mut names: Vec<String> = Vec::new();
        std::mem::swap(&mut names, &mut self.hidden_apps);
        let ghost all = strs(names@);
        let mut kept: Vec<String> = Vec::new();
        for a in it: names.into_iter()
            invariant
                all == strs(it.seq()),
                strs(kept@) == without(all.take(it.index() as int), name@),
        {
            proof {
                reveal_with_fuel(Seq::<_>::filter, 1);
                assert(all.take(it.index() + 1).drop_last() =~= all.take(it.index() as int));
                assert(all[it.index() as int] == a@);
            }
            if !str_eq(a.as_str(), name) {
                let ghost before = strs(kept@);
                kept.push(a);
                assert(strs(kept@) =~= before.push(all[it.index() as int]));
            }
        }
        proof {
            assert(all.take(all.len() as int) =~= all);
        }
        self.hidden_apps = kept;
    }

    /// Stores a line of console output of `name`.
    pub fn record_output(&mut self, name: &str, line: String)
        ensures
            final(self).logs.log(name@) == Some(
                logged(
                    match old(self).logs.log(name@) {
                        Some(l) => l,
                        None => Seq::<Seq<char>>::empty(),
                    },
                    line@,
                ),
            ),
            forall|other: Seq<char>|
                other != name@ ==> final(self).logs.log(other) == old(self).logs.log(other),
            final(self).logs.log(name@)->0.len() <= LOG_LIMIT,
            final(self).settings() == old(self).settings(),
            final(self).apps == old(self).apps,
            final(self).hidden_apps == old(self).hidden_apps,
    {
        self.logs.record(name, line);
    }

    /// Takes over an imported configuration: every field comes from
    /// `imported`, except that no window counts as hidden any more.
    pub fn adopt_imported(&mut self, imported: AppState)
        ensures
            final(self).apps == imported.apps,
            final(self).settings() == imported.settings(),
            final(self).logs == imported.logs,
            final(self).hidden_apps@.len() == 0,
    {
        let mut next = imported;
        next.hidden_apps = Vec::new();
        *self = next;
    }

    /// The description shown in the tray icon's tooltip.
    pub fn tool_tip_description(&self) -> (r: String)
        ensures
            r@ == tool_tip_of(self.apps@.len(), self.hidden_apps@.len()),
    {
        let mut t = chars_of("Managing ");
        append_chars(&mut t, decimal_chars(self.apps.len() as u64).as_slice());
        append_chars(&mut t, chars_of(" active rules \u{2022} ").as_slice());
        append_chars(&mut t, decimal_chars(self.hidden_apps.len() as u64).as_slice());
        append_chars(&mut t, chars_of(" apps hidden").as_slice());
        string_of(t.as_slice())
    }

    /// The labels of the tray menu entries that bring hidden windows back,
    /// one per hidden window, in order.
    pub fn hidden_menu_labels(&self) -> (r: Vec<String>)
        ensures
            strs(r@) == strs(self.hidden_apps@).map_values(|n: Seq<char>| show_label(n)),
    {
        let ghost names = strs(self.hidden_apps@);
        let mut r: Vec<String> = Vec::new();
        let mut i: usize = 0;
        while i < self.hidden_apps.len()
            invariant
                i <= self.hidden_apps@.len(),
                names == strs(self.hidden_apps@),
                strs(r@) == names.take(i as int).map_values(|n: Seq<char>| show_label(n)),
            decreases self.hidden_apps@.len() - i,
        {
            let mut label = chars_of("Show ");
            append_chars(&mut label, chars_of(self.hidden_apps[i].as_str()).as_slice());
            let ghost before = strs(r@);
            r.push(string_of(label.as_slice()));
            assert(strs(r@) =~= names.take(i + 1).map_values(|n: Seq<char>| show_label(n))) by {
                assert(strs(r@) =~= before.push(show_label(names[i as int])));
            }
            i = i + 1;
        }
        assert(names.take(i as int) =~= names);
        r
    }

    /// Records that the desktop integration was removed: the worker no longer
    /// starts with the session and the desktop entry counts as missing.
    pub fn mark_uninstalled(&mut self)
        ensures
            !final(self).auto_start,
            !final(self).desktop_installed,
            final(self).launch_delay == old(self).launch_delay,
            final(self).notifications == old(self).notifications,
            final(self).silent_mode == old(self).silent_mode,
            final(self).multi_launch == old(self).multi_launch,
            final(self).last_run_version == old(self).last_run_version,
            final(self).shown_warning == old(self).shown_warning,
            final(self).apps == old(self).apps,
            final(self).hidden_apps == old(self).hidden_apps,
            final(self).logs == old(self).logs,
    {
        self.auto_start = false;
        self.desktop_installed = false;
    }

    /// Records that the settings page of this version was acknowledged.
    pub fn mark_version_seen(&mut self)
        ensures
            final(self).last_run_version matches Some(v) && v@ == CURRENT_VERSION@,
            final(self).apps == old(self).apps,
            final(self).hidden_apps == old(self).hidden_apps,
            final(self).logs == old(self).logs,
            final(self).launch_delay == old(self).launch_delay,
            final(self).notifications == old(self).notifications,
            final(self).auto_start == old(self).auto_start,
            final(self).silent_mode == old(self).silent_mode,
            final(self).multi_launch == old(self).multi_launch,
            final(self).shown_warning == old(self).shown_warning,
            final(self).desktop_installed == old(self).desktop_installed,
    {
        self.last_run_version = Some(owned(CURRENT_VERSION));
    }
}

impl Default for AppState {
    /// No rules, a launch delay of 1500 ms, notifications on, everything else
    /// off or empty.
    fn default() -> (s: Self)
        ensures
            s.apps@.len() == 0,
            s.launch_delay == 1500,
            s.notifications,
            !s.auto_start,
            !s.silent_mode,
            !s.multi_launch,
            s.last_run_version is None,
            !s.shown_warning,
            !s.desktop_installed,
            s.hidden_apps@.len() == 0,
            forall|name: Seq<char>| s.logs.log(name) is None,
    {
        AppState {
            apps: Vec::new(),
            launch_delay: 1500,
            notifications: true,
            auto_start: false,
            silent_mode: false,
            multi_launch: false,
            last_run_version: None,
            shown_warning: false,
            desktop_installed: false,
            hidden_apps: Vec::new(),
            logs: LogBook::new(),
        }
    }
}


/// The lines kept after recording `history`, line by line, into a log that
/// held `kept`.
pub open spec fn log_from(kept: Seq<Seq<char>>, history: Seq<Seq<char>>) -> Seq<Seq<char>>
    decreases history.len(),
{
    if history.len() == 0 {
        kept
    } else {
        logged(log_from(kept, history.drop_last()), history.last())
    }
}

/// Law: a log keeps the latest `LOG_LIMIT` lines of what it held followed by
/// what was recorded into it, in order (all of them while there are fewer).
pub proof fn lemma_log_keeps_latest(kept: Seq<Seq<char>>, history: Seq<Seq<char>>)
    requires
        kept.len() <= LOG_LIMIT,
    ensures
        log_from(kept, history) == (kept + history).subrange(
            if kept.len() + history.len() > LOG_LIMIT {
                kept.len() + history.len() - LOG_LIMIT
            } else {
                0
            },
            (kept.len() + history.len()) as int,
        ),
    decreases history.len(),
{
    let all = kept + history;
    if history.len() > 0 {
        let before = history.drop_last();
        lemma_log_keeps_latest(kept, before);
        let prior = kept + before;
        let start: int = if prior.len() > LOG_LIMIT {
            prior.len() - LOG_LIMIT
        } else {
            0
        };
        assert(prior =~= all.drop_last());
        let grown = prior.subrange(start, prior.len() as int).push(history.last());
        assert(grown =~= all.subrange(start, all.len() as int));
        if grown.len() > LOG_LIMIT {
            assert(grown.drop_first() =~= all.subrange(start + 1, all.len() as int));
        }
    } else {
        assert(all =~= kept);
        assert(kept.subrange(0, kept.len() as int) =~= kept);
    }
}

/// Whether no name occurs twice.
pub open spec fn distinct(names: Seq<Seq<char>>) -> bool {
    forall|i: int, j: int| 0 <= i < j < names.len() ==> names[i] != names[j]
}

/// Law: hiding a window never lists it twice: the hidden windows stay
/// distinct, and `name` is among them afterwards.
pub proof fn lemma_hidden_stay_distinct(names: Seq<Seq<char>>, name: Seq<char>)
    requires
        distinct(names),
    ensures
        distinct(with_name(names, name)),
        with_name(names, name).contains(name),
{
    if !names.contains(name) {
        let after = names.push(name);
        assert(after[names.len() as int] == name);
        assert forall|i: int, j: int| 0 <= i < j < after.len() implies after[i] != after[j] by {
            if j == names.len() {
                assert(after[i] == names[i]);
            }
        }
    }
}

/// Law: bringing a window back removes every trace of it, whether or not it
/// was hidden again in between: showing `name` after hiding it leaves the
/// same list as showing it straight away.
pub proof fn lemma_show_after_hide(names: Seq<Seq<char>>, name: Seq<char>)
    ensures
        without(with_name(names, name), name) == without(names, name),
        !without(names, name).contains(name),
{
    reveal_with_fuel(Seq::<_>::filter, 1);
    let pred = |a: Seq<char>| a != name;
    if !names.contains(name) {
        assert(names.push(name).drop_last() =~= names);
        assert(without(names.push(name), name) == without(names, name));
    }
    broadcast use vstd::seq_lib::group_filter_ensures;
    if without(names, name).contains(name) {
        let k = choose|k: int| 0 <= k < without(names, name).len() && without(names, name)[k] == name;
        assert(pred(without(names, name)[k]));
    }
}

/// Law: after `remove_rules_named(name)` no rule for `name` is left, and
/// every rule for another class still is.
pub proof fn lemma_removed_rules_gone(rules: Seq<AppRule>, name: Seq<char>)
    ensures
        forall|i: int|
            0 <= i < rules_not_named(rules, name).len() ==> (#[trigger] rules_not_named(
                rules,
                name,
            )[i]).name@ != name,
        forall|i: int|
            0 <= i < rules.len() && (#[trigger] rules[i]).name@ != name ==> rules_not_named(
                rules,
                name,
            ).contains(rules[i]),
{
    broadcast use vstd::seq_lib::group_filter_ensures;
}

/// A line of captured output as the console shows it: lines from the error
/// stream are marked with `[ERR] `.
pub open spec fn console_line(from_stderr: bool, line: Seq<char>) -> Seq<char> {
    if from_stderr {
        "[ERR] "@ + line
    } else {
        line
    }
}

/// Marks a captured line by the stream it came from.
pub fn output_line(from_stderr: bool, line: &str) -> (r: String)
    ensures
        r@ == console_line(from_stderr, line@),
{
    if from_stderr {
        let mut t = chars_of("[ERR] ");
        append_chars(&mut t, chars_of(line).as_slice());
        string_of(t.as_slice())
    } else {
        owned(line)
    }
}

} // verus!
