//! Autostart as a systemd user service: the unit file, the commands that
//! enable and disable it, and the clean-up of the older `exec-once` entry in
//! `hyprland.conf`.

use vstd::prelude::*;

use crate::state::strs;
use crate::text::{
    free_of, lemma_filter_all, lemma_filter_keeps, lemma_lines_free, lemma_lines_of_written, lemma_strip_cr_infix,
    strip_cr, owned,
    append_chars, chars_of, contains, has_infix, join, join_exec, lines, lines_of,
    string_of, trim, trimmed, views,
};

verus! {

/// The name of the systemd user unit.
pub const SERVICE_NAME: &'static str = "totray.service";

/// The unit file up to the path of the binary.
pub const UNIT_HEAD: &'static str = "[Unit]\nDescription=ToTray - Autorun and Tray Manager for Hyprland\nAfter=graphical-session.target\nPartOf=graphical-session.target\n\n[Service]\nType=simple\nExecStart=\"";

/// The unit file after the path of the binary.
pub const UNIT_TAIL: &'static str = "\" --worker\nRestart=on-failure\nRestartSec=3\n\n[Install]\nWantedBy=default.target\n";

/// The unit file that runs `bin --worker` with the graphical session.
pub open spec fn unit_text(bin: Seq<char>) -> Seq<char> {
    UNIT_HEAD@ + bin + UNIT_TAIL@
}

/// The contents of the systemd user unit for the binary at `bin`.
pub fn service_unit_text(bin: &str) -> (r: String)
    ensures
        r@ == unit_text(bin@),
{
    let mut t = chars_of(UNIT_HEAD);
    append_chars(&mut t, chars_of(bin).as_slice());
    append_chars(&mut t, chars_of(UNIT_TAIL).as_slice());
    string_of(t.as_slice())
}

/// Something to do to the service.
#[derive(Clone, Debug)]
pub enum ServiceCommand {
    /// Write the unit file (`service_unit_text`) for the installed binary.
    WriteUnit,
    /// Run `systemctl` with these arguments.
    Systemctl(Vec<String>),
    /// Remove the unit file, if it exists.
    RemoveUnit,
}

/// What a `ServiceCommand` stands for.
pub enum UnitCommand {
    WriteUnit,
    Systemctl(Seq<Seq<char>>),
    RemoveUnit,
}

/// The meaning of a command.
pub open spec fn command_view(c: ServiceCommand) -> UnitCommand {
    match c {
        ServiceCommand::WriteUnit => UnitCommand::WriteUnit,
        ServiceCommand::Systemctl(args) => UnitCommand::Systemctl(strs(args@)),
        ServiceCommand::RemoveUnit => UnitCommand::RemoveUnit,
    }
}

/// The next move while enabling the service.
#[derive(Clone, Debug)]
pub enum ServiceStep {
    /// Carry out this command and report whether it succeeded.
    Run(ServiceCommand),
    /// Enabling is over; whether it succeeded.
    Finished(bool),
}

/// The commands that enable the service: write the unit, reload systemd,
/// enable the unit (and start it now, if asked).
pub open spec fn enable_plan(start_now: bool) -> Seq<UnitCommand> {
    seq![
        UnitCommand::WriteUnit,
        UnitCommand::Systemctl(seq!["--user"@, "daemon-reload"@]),
        if start_now {
            UnitCommand::Systemctl(seq!["--user"@, "enable"@, "--now"@, SERVICE_NAME@])
        } else {
            UnitCommand::Systemctl(seq!["--user"@, "enable"@, SERVICE_NAME@])
        },
    ]
}

/// Whether one of the reported outcomes is a failure.
pub open spec fn some_failed(outcomes: Seq<bool>) -> bool {
    exists|j: int| 0 <= j < outcomes.len() && !outcomes[j]
}

/// The decision after the outcomes of the commands run so far: the first
/// failure ends enabling with `false`; otherwise the next planned command
/// runs, and after the last one enabling ends with `true`.
pub open spec fn enable_decision(start_now: bool, outcomes: Seq<bool>) -> Option<UnitCommand> {
    if some_failed(outcomes) || outcomes.len() >= 3 {
        None
    } else {
        Some(enable_plan(start_now)[outcomes.len() as int])
    }
}

/// Enables the service, one command at a time: `outcomes` holds whether
/// each command asked for so far succeeded, in order.
pub fn enable_service(start_now: bool, outcomes: &Vec<bool>) -> (r: ServiceStep)
    ensures
        match r {
            ServiceStep::Run(c) => enable_decision(start_now, outcomes@) == Some(command_view(c)),
            ServiceStep::Finished(ok) => enable_decision(start_now, outcomes@) is None && ok == (
            !some_failed(outcomes@)),
        },
{
    let mut j: usize = 0;
    while j < outcomes.len()
        invariant
            j <= outcomes@.len(),
            forall|k: int| 0 <= k < j ==> outcomes@[k],
        decreases outcomes@.len() - j,
    {
        if !outcomes[j] {
            return ServiceStep::Finished(false);
        }
        j = j + 1;
    }
    if outcomes.len() >= 3 {
        return ServiceStep::Finished(true);
    }
    if outcomes.len() == 0 {
        ServiceStep::Run(ServiceCommand::WriteUnit)
    } else if outcomes.len() == 1 {
        let mut args: Vec<String> = Vec::new();
        args.push(owned("--user"));
        args.push(owned("daemon-reload"));
        assert(strs(args@) =~= seq!["--user"@, "daemon-reload"@]);
        ServiceStep::Run(ServiceCommand::Systemctl(args))
    } else {
        let mut args: Vec<String> = Vec::new();
        args.push(owned("--user"));
        args.push(owned("enable"));
        if start_now {
            args.push(owned("--now"));
        }
        args.push(owned(SERVICE_NAME));
        if start_now {
            assert(strs(args@) =~= seq!["--user"@, "enable"@, "--now"@, SERVICE_NAME@]);
        } else {
            assert(strs(args@) =~= seq!["--user"@, "enable"@, SERVICE_NAME@]);
        }
        ServiceStep::Run(ServiceCommand::Systemctl(args))
    }
}

/// The commands that turn autostart off: disable and stop the unit, remove
/// its file, reload systemd.  Their outcomes do not matter.
pub fn disable_service_commands() -> (r: Vec<ServiceCommand>)
    ensures
        r@.map_values(|c: ServiceCommand| command_view(c)) == seq![
            UnitCommand::Systemctl(seq!["--user"@, "disable"@, "--now"@, SERVICE_NAME@]),
            UnitCommand::RemoveUnit,
            UnitCommand::Systemctl(seq!["--user"@, "daemon-reload"@]),
        ],
{
    let mut disable: Vec<String> = Vec::new();
    disable.push(owned("--user"));
    disable.push(owned("disable"));
    disable.push(owned("--now"));
    disable.push(owned(SERVICE_NAME));
    assert(strs(disable@) =~= seq!["--user"@, "disable"@, "--now"@, SERVICE_NAME@]);
    let mut reload: Vec<String> = Vec::new();
    reload.push(owned("--user"));
    reload.push(owned("daemon-reload"));
    assert(strs(reload@) =~= seq!["--user"@, "daemon-reload"@]);
    let mut r: Vec<ServiceCommand> = Vec::new();
    r.push(ServiceCommand::Systemctl(disable));
    r.push(ServiceCommand::RemoveUnit);
    r.push(ServiceCommand::Systemctl(reload));
    assert(r@.map_values(|c: ServiceCommand| command_view(c)) =~= seq![
        UnitCommand::Systemctl(seq!["--user"@, "disable"@, "--now"@, SERVICE_NAME@]),
        UnitCommand::RemoveUnit,
        UnitCommand::Systemctl(seq!["--user"@, "daemon-reload"@]),
    ]);
    r
}

/// The `systemctl` arguments that ask, quietly, whether the unit is enabled.
pub fn is_enabled_args() -> (r: Vec<String>)
    ensures
        strs(r@) == seq!["--user"@, "--quiet"@, "is-enabled"@, SERVICE_NAME@],
{
    let mut r: Vec<String> = Vec::new();
    r.push(owned("--user"));
    r.push(owned("--quiet"));
    r.push(owned("is-enabled"));
    r.push(owned(SERVICE_NAME));
    assert(strs(r@) =~= seq!["--user"@, "--quiet"@, "is-enabled"@, SERVICE_NAME@]);
    r
}

/// Whether an older `exec-once` autostart should become the service: only
/// when autostart is on, an old entry was just removed, and the service is
/// not enabled yet.
pub fn should_migrate(auto_start: bool, had_legacy: bool, service_enabled: bool) -> (r: bool)
    ensures
        r == (auto_start && had_legacy && !service_enabled),
{
    auto_start && had_legacy && !service_enabled
}

/// Whether a line of `hyprland.conf` survives the clean-up: it mentions
/// neither `totray` nor the `# ToTray:` marker.
pub open spec fn keeps_conf_line(l: Seq<char>) -> bool {
    !has_infix(l, "totray"@) && !has_infix(l, "# ToTray:"@)
}

/// `ls` without its trailing blank lines.
pub open spec fn drop_blank_tail(ls: Seq<Seq<char>>) -> Seq<Seq<char>>
    decreases ls.len(),
{
    if ls.len() > 0 && trimmed(ls.last()).len() == 0 {
        drop_blank_tail(ls.drop_last())
    } else {
        ls
    }
}

/// The lines of `hyprland.conf` that the clean-up keeps: those that do not
/// belong to the older autostart, without trailing blank lines.
pub open spec fn cleaned_conf_lines(content: Seq<char>) -> Seq<Seq<char>> {
    drop_blank_tail(lines_of(content).filter(|l: Seq<char>| keeps_conf_line(l)))
}

/// `hyprland.conf` without the lines of the older autostart: the kept lines
/// joined by `\n`, with a final `\n`.
pub open spec fn conf_without_autostart(content: Seq<char>) -> Seq<char> {
    join(cleaned_conf_lines(content), "\n"@) + "\n"@
}

/// Whether `hyprland.conf` holds an older autostart: some line mentions
/// `totray` or the `# ToTray:` marker.
pub open spec fn has_legacy_autostart(content: Seq<char>) -> bool {
    exists|i: int| 0 <= i < lines_of(content).len() && !keeps_conf_line(#[trigger] lines_of(content)[i])
}

/// A blank-free line kept by a sequence stays when its trailing blank lines
/// go.
proof fn lemma_drop_blank_tail_keeps(ls: Seq<Seq<char>>, x: Seq<char>)
    requires
        ls.contains(x),
        trimmed(x).len() != 0,
    ensures
        drop_blank_tail(ls).contains(x),
    decreases ls.len(),
{
    if ls.len() > 0 && trimmed(ls.last()).len() == 0 {
        let j = choose|j: int| 0 <= j < ls.len() && ls[j] == x;
        assert(j != ls.len() - 1);
        assert(ls.drop_last()[j] == x);
        lemma_drop_blank_tail_keeps(ls.drop_last(), x);
    }
}

/// Law: the clean-up touches only the older autostart.  `hyprland.conf`
/// holds one exactly when a line contains `totray` or `# ToTray:`; no kept
/// line contains either; and every line that contains neither and is not
/// blank is kept.
pub proof fn lemma_cleanup_only_autostart_lines(content: Seq<char>)
    ensures
        has_legacy_autostart(content) <==> exists|i: int|
            0 <= i < lines_of(content).len() && (has_infix(
                #[trigger] lines_of(content)[i],
                "totray"@,
            ) || has_infix(lines_of(content)[i], "# ToTray:"@)),
        forall|i: int|
            0 <= i < cleaned_conf_lines(content).len() ==> !has_infix(
                #[trigger] cleaned_conf_lines(content)[i],
                "totray"@,
            ) && !has_infix(cleaned_conf_lines(content)[i], "# ToTray:"@),
        forall|i: int|
            0 <= i < lines_of(content).len() && !has_infix(#[trigger] lines_of(content)[i], "totray"@)
                && !has_infix(lines_of(content)[i], "# ToTray:"@) && trimmed(lines_of(content)[i]).len()
                != 0 ==> cleaned_conf_lines(content).contains(lines_of(content)[i]),
        cleaned_conf_lines(content) == drop_blank_tail(
            lines_of(content).filter(
                |l: Seq<char>| !has_infix(l, "totray"@) && !has_infix(l, "# ToTray:"@),
            ),
        ),
        forall|ls: Seq<Seq<char>>|
            #![trigger drop_blank_tail(ls)]
            {
                let d = drop_blank_tail(ls);
                &&& d.len() <= ls.len()
                &&& d == ls.subrange(0, d.len() as int)
                &&& d.len() == 0 || trimmed(d.last()).len() != 0
                &&& forall|j: int| d.len() <= j < ls.len() ==> trimmed(#[trigger] ls[j]).len() == 0
            },
{
    broadcast use vstd::seq_lib::group_filter_ensures;

    let ls = lines_of(content);
    let pred = |l: Seq<char>| keeps_conf_line(l);
    lemma_cleaned_conf_lines(content);
    assert forall|i: int|
        0 <= i < ls.len() && !has_infix(#[trigger] ls[i], "totray"@) && !has_infix(
            ls[i],
            "# ToTray:"@,
        ) && trimmed(ls[i]).len() != 0 implies cleaned_conf_lines(content).contains(ls[i]) by {
        assert(pred(ls[i]));
        assert(ls.contains(ls[i]));
        assert(ls.filter(pred).contains(ls[i]));
        lemma_drop_blank_tail_keeps(ls.filter(pred), ls[i]);
    }
    let direct = |l: Seq<char>| !has_infix(l, "totray"@) && !has_infix(l, "# ToTray:"@);
    assert(pred =~= direct);
    assert forall|xs: Seq<Seq<char>>| #![trigger drop_blank_tail(xs)]
        {
            let d = drop_blank_tail(xs);
            &&& d.len() <= xs.len()
            &&& d == xs.subrange(0, d.len() as int)
            &&& d.len() == 0 || trimmed(d.last()).len() != 0
            &&& forall|j: int| d.len() <= j < xs.len() ==> trimmed(#[trigger] xs[j]).len() == 0
        } by {
        lemma_drop_blank_tail_prefix(xs);
        lemma_drop_blank_tail_ends(xs);
        lemma_drop_blank_tail_rest(xs);
        assert(drop_blank_tail(xs) =~= xs.subrange(0, drop_blank_tail(xs).len() as int));
    }
}

/// What `drop_blank_tail` leaves out is blank.
proof fn lemma_drop_blank_tail_rest(ls: Seq<Seq<char>>)
    ensures
        forall|j: int|
            drop_blank_tail(ls).len() <= j < ls.len() ==> trimmed(#[trigger] ls[j]).len() == 0,
    decreases ls.len(),
{
    if ls.len() > 0 && trimmed(ls.last()).len() == 0 {
        lemma_drop_blank_tail_rest(ls.drop_last());
        lemma_drop_blank_tail_prefix(ls.drop_last());
        assert forall|j: int| drop_blank_tail(ls).len() <= j < ls.len() implies trimmed(
            #[trigger] ls[j],
        ).len() == 0 by {
            if j < ls.len() - 1 {
                assert(ls.drop_last()[j] == ls[j]);
            }
        }
    }
}

/// Removes the older autostart from `hyprland.conf`: `None` when no line
/// belongs to it (the file stays as it is), else the new contents, which
/// keep the other lines in order.
pub fn strip_legacy_autostart(content: &str) -> (r: Option<String>)
    ensures
        r is Some <==> has_legacy_autostart(content@),
        r matches Some(t) ==> t@ == conf_without_autostart(content@) && t@ != content@,
{
    let text = chars_of(content);
    let all = lines(text.as_slice());
    let ghost ls = views(all@);
    let ghost pred = |l: Seq<char>| keeps_conf_line(l);
    let totray = chars_of("totray");
    let marker = chars_of("# ToTray:");
    let mut kept: Vec<Vec<char>> = Vec::new();
    let mut dropped = false;
    let mut i: usize = 0;
    while i < all.len()
        invariant
            i <= all@.len(),
            ls == views(all@),
            ls == lines_of(content@),
            totray@ == "totray"@,
            marker@ == "# ToTray:"@,
            pred == (|l: Seq<char>| keeps_conf_line(l)),
            views(kept@) == ls.take(i as int).filter(pred),
            dropped <==> exists|j: int| 0 <= j < i && !keeps_conf_line(#[trigger] ls[j]),
        decreases all@.len() - i,
    {
        proof {
            reveal_with_fuel(Seq::<_>::filter, 1);
            assert(ls.take(i + 1).drop_last() =~= ls.take(i as int));
        }
        let line = &all[i];
        assert(line@ == ls[i as int]);
        if !contains(line.as_slice(), totray.as_slice()) && !contains(
            line.as_slice(),
            marker.as_slice(),
        ) {
            let ghost before = views(kept@);
            kept.push(line.clone());
            assert(views(kept@) =~= before.push(ls[i as int]));
        } else {
            assert(!keeps_conf_line(ls[i as int]));
            dropped = true;
        }
        i = i + 1;
    }
    assert(ls.take(i as int) =~= ls);
    if !dropped {
        return None;
    }
    let ghost filtered = views(kept@);
    while kept.len() > 0 && trim(kept[kept.len() - 1].as_slice()).len() == 0
        invariant
            drop_blank_tail(views(kept@)) == drop_blank_tail(filtered),
        decreases kept@.len(),
    {
        let ghost before = views(kept@);
        kept.pop();
        assert(views(kept@) =~= before.drop_last());
    }
    let newline = chars_of("\n");
    let mut out = join_exec(&kept, newline.as_slice());
    append_chars(&mut out, newline.as_slice());
    proof {
        lemma_cleanup_finds_nothing_twice(content@);
    }
    Some(string_of(out.as_slice()))
}

proof fn lemma_drop_blank_tail_prefix(ls: Seq<Seq<char>>)
    ensures
        drop_blank_tail(ls).len() <= ls.len(),
        forall|i: int| 0 <= i < drop_blank_tail(ls).len() ==> #[trigger] drop_blank_tail(ls)[i]
            == ls[i],
    decreases ls.len(),
{
    if ls.len() > 0 && trimmed(ls.last()).len() == 0 {
        lemma_drop_blank_tail_prefix(ls.drop_last());
    }
}

/// Law: after the clean-up no line of `hyprland.conf` mentions `totray` or
/// the `# ToTray:` marker, as read back line by line.
pub proof fn lemma_cleaned_conf_has_no_autostart(content: Seq<char>)
    ensures
        forall|i: int|
            0 <= i < lines_of(conf_without_autostart(content)).len() ==> keeps_conf_line(
                #[trigger] lines_of(conf_without_autostart(content))[i],
            ),
{
    broadcast use vstd::seq_lib::group_filter_ensures;

    let ls = lines_of(content);
    let pred = |l: Seq<char>| keeps_conf_line(l);
    let free = |l: Seq<char>| free_of(l, '\n');
    lemma_lines_free(content);
    assert forall|i: int| 0 <= i < ls.len() implies free(#[trigger] ls[i]) by {}
    lemma_filter_keeps(ls, pred, free);
    lemma_cleaned_conf_lines(content);
    let pruned = cleaned_conf_lines(content);
    lemma_lines_of_written(pruned);
    let out = lines_of(conf_without_autostart(content));
    assert forall|i: int| 0 <= i < out.len() implies keeps_conf_line(#[trigger] out[i]) by {
        if pruned.len() == 0 {
            assert(out[i] == Seq::<char>::empty());
            assert(!has_infix(Seq::<char>::empty(), "totray"@)) by {
                reveal_strlit("totray");
            }
            assert(!has_infix(Seq::<char>::empty(), "# ToTray:"@)) by {
                reveal_strlit("# ToTray:");
            }
        } else {
            assert(out[i] == strip_cr(pruned[i]));
            lemma_strip_cr_infix(pruned[i], "totray"@);
            lemma_strip_cr_infix(pruned[i], "# ToTray:"@);
        }
    }
}

/// The kept lines hold no `\n`, belong to no autostart, and do not end
/// with a blank line.
proof fn lemma_cleaned_conf_lines(content: Seq<char>)
    ensures
        forall|i: int|
            0 <= i < cleaned_conf_lines(content).len() ==> free_of(
                #[trigger] cleaned_conf_lines(content)[i],
                '\n',
            ) && keeps_conf_line(cleaned_conf_lines(content)[i]),
        cleaned_conf_lines(content).len() == 0 || trimmed(cleaned_conf_lines(content).last()).len()
            != 0,
{
    broadcast use vstd::seq_lib::group_filter_ensures;

    let ls = lines_of(content);
    let pred = |l: Seq<char>| keeps_conf_line(l);
    let free = |l: Seq<char>| free_of(l, '\n');
    lemma_lines_free(content);
    assert forall|i: int| 0 <= i < ls.len() implies free(#[trigger] ls[i]) by {}
    lemma_filter_keeps(ls, pred, free);
    let kept = ls.filter(pred);
    let pruned = drop_blank_tail(kept);
    lemma_drop_blank_tail_prefix(kept);
    lemma_drop_blank_tail_ends(kept);
    assert forall|i: int| 0 <= i < pruned.len() implies free_of(#[trigger] pruned[i], '\n')
        && keeps_conf_line(pruned[i]) by {
        assert(pruned[i] == kept[i]);
        assert(free(kept[i]));
        assert(pred(kept[i]));
    }
}

proof fn lemma_drop_blank_tail_ends(ls: Seq<Seq<char>>)
    ensures
        drop_blank_tail(ls).len() == 0 || trimmed(drop_blank_tail(ls).last()).len() != 0,
    decreases ls.len(),
{
    if ls.len() > 0 && trimmed(ls.last()).len() == 0 {
        lemma_drop_blank_tail_ends(ls.drop_last());
    }
}

/// Law: once cleaned, `hyprland.conf` holds no older autostart, so a second
/// clean-up finds nothing and the migration runs at most once.
pub proof fn lemma_cleanup_finds_nothing_twice(content: Seq<char>)
    ensures
        !has_legacy_autostart(conf_without_autostart(content)),
{
    lemma_cleaned_conf_has_no_autostart(content);
}

/// Whether a line ends with a carriage return.
pub open spec fn ends_with_cr(l: Seq<char>) -> bool {
    l.len() > 0 && l.last() == '\r'
}

/// Law: the clean-up text of an already cleaned `hyprland.conf` is that
/// text itself.  This holds unless a kept line ends with a carriage return,
/// which reading the written file back would drop.
pub proof fn lemma_cleanup_idempotent(content: Seq<char>)
    requires
        forall|i: int|
            0 <= i < cleaned_conf_lines(content).len() ==> !ends_with_cr(
                #[trigger] cleaned_conf_lines(content)[i],
            ),
    ensures
        conf_without_autostart(conf_without_autostart(content)) == conf_without_autostart(content),
{
    let pruned = cleaned_conf_lines(content);
    let text = conf_without_autostart(content);
    lemma_cleaned_conf_lines(content);
    lemma_lines_of_written(pruned);
    let pred = |l: Seq<char>| keeps_conf_line(l);
    if pruned.len() == 0 {
        let again = seq![Seq::<char>::empty()];
        assert(lines_of(text) == again);
        assert(keeps_conf_line(Seq::<char>::empty())) by {
            reveal_strlit("totray");
            reveal_strlit("# ToTray:");
        }
        lemma_filter_all(again, pred);
        assert(trimmed(Seq::<char>::empty()) == Seq::<char>::empty());
        assert(again.drop_last() =~= Seq::<Seq<char>>::empty());
        assert(drop_blank_tail(again) == drop_blank_tail(Seq::<Seq<char>>::empty()));
        assert(cleaned_conf_lines(text) == pruned);
    } else {
        assert(pruned.map_values(|l: Seq<char>| strip_cr(l)) =~= pruned);
        assert(lines_of(text) == pruned);
        lemma_filter_all(pruned, pred);
        assert(cleaned_conf_lines(text) == pruned);
    }
}

} // verus!
