//! Desktop integration: the desktop entry, the shell snippets that put
//! `~/.local/bin` on the `PATH`, and their removal on uninstall.

use vstd::prelude::*;

use crate::state::strs;
use crate::text::{
    free_of, lemma_filter_all, lemma_filter_keeps, lemma_infix_grows, lemma_part_in_join, lemma_lines_free, lemma_lines_of_written, lemma_strip_cr_infix,
    strip_cr, append_chars, chars_of, contains, ends_with, has_infix, has_prefix, has_suffix, join,
    join_exec, lines, occurs_at,
    lines_of, owned, remove_all, slice_range, split, split_on, string_of, views, without_all,
};

verus! {

/// The desktop entry up to the first path of the binary.
pub const DESKTOP_HEAD: &'static str = "[Desktop Entry]\nName=ToTray\nComment=Autorun and Tray Manager for Hyprland\nExec=";

/// The desktop entry between the two paths of the binary.
pub const DESKTOP_MIDDLE: &'static str = "\nIcon=totray\nTerminal=false\nType=Application\nCategories=Utility;System;\nStartupNotify=false\nActions=Settings;\n\n[Desktop Action Settings]\nName=Settings\nExec=";

/// The desktop entry after the second path of the binary.
pub const DESKTOP_TAIL: &'static str = "\n";

/// The desktop entry that starts the binary at `bin`, with a settings action.
pub open spec fn desktop_text(bin: Seq<char>) -> Seq<char> {
    DESKTOP_HEAD@ + bin + DESKTOP_MIDDLE@ + bin + DESKTOP_TAIL@
}

/// The contents of `totray.desktop` for the binary at `bin`.
pub fn desktop_entry_text(bin: &str) -> (r: String)
    ensures
        r@ == desktop_text(bin@),
{
    let b = chars_of(bin);
    let mut t = chars_of(DESKTOP_HEAD);
    append_chars(&mut t, b.as_slice());
    append_chars(&mut t, chars_of(DESKTOP_MIDDLE).as_slice());
    append_chars(&mut t, b.as_slice());
    append_chars(&mut t, chars_of(DESKTOP_TAIL).as_slice());
    string_of(t.as_slice())
}

/// Whether a shell configuration still needs the `PATH` entry: it does not
/// mention `.local/bin` yet.
pub fn needs_path_entry(config: &str) -> (r: bool)
    ensures
        r == !has_infix(config@, ".local/bin"@),
{
    !contains(chars_of(config).as_slice(), chars_of(".local/bin").as_slice())
}

/// What adding the `PATH` entry appends to a shell configuration: nothing
/// when it mentions `.local/bin` already, else the block `block`.
pub open spec fn path_addition(content: Seq<char>, block: Seq<char>) -> Option<Seq<char>> {
    if has_infix(content, ".local/bin"@) {
        None
    } else {
        Some(block)
    }
}

/// A shell configuration after adding the `PATH` entry to it.
pub open spec fn after_path_fix(content: Seq<char>, block: Seq<char>) -> Seq<char> {
    match path_addition(content, block) {
        Some(t) => content + t,
        None => content,
    }
}

/// The text to append to a shell configuration holding `content` so that
/// `~/.local/bin` is on the `PATH`: `None` when it is there already.
pub fn path_entry_to_append(content: &str, block: &str) -> (r: Option<String>)
    ensures
        r is Some <==> path_addition(content@, block@) is Some,
        r matches Some(t) ==> path_addition(content@, block@) == Some(t@),
{
    if needs_path_entry(content) {
        Some(owned(block))
    } else {
        None
    }
}

/// Law: adding the `PATH` entry only appends (the old contents stay a
/// prefix), and a second time it changes nothing, for every block that
/// mentions `.local/bin`.
pub proof fn lemma_path_fix_once(content: Seq<char>, block: Seq<char>)
    requires
        has_infix(block, ".local/bin"@),
    ensures
        has_prefix(after_path_fix(content, block), content),
        after_path_fix(after_path_fix(content, block), block) == after_path_fix(content, block),
{
    let once = after_path_fix(content, block);
    assert(once.subrange(0, content.len() as int) =~= content);
    if !has_infix(content, ".local/bin"@) {
        let i = choose|i: int| occurs_at(block, ".local/bin"@, i);
        let n = ".local/bin"@.len();
        assert(once.subrange(content.len() + i, content.len() + i + n) =~= block.subrange(i, i + n));
        assert(occurs_at(once, ".local/bin"@, content.len() + i));
    }
}

/// Both blocks that adding the `PATH` entry appends mention `.local/bin`
/// (the fish block through its directory).
pub proof fn lemma_path_blocks_mention_bin(bin_dir: Seq<char>)
    requires
        has_infix(bin_dir, ".local/bin"@),
    ensures
        has_infix(SHELL_PATH_TEXT@, ".local/bin"@),
        has_infix(fish_text(bin_dir), ".local/bin"@),
{
    reveal_strlit(".local/bin");
    reveal_strlit("\n# Added by ToTray\nfish_add_path ");
    reveal_strlit(
        "\n# Added by ToTray\nif [ -n \"$BASH_VERSION\" ] || [ -n \"$ZSH_VERSION\" ] || [ \"$SHELL\" != \"/usr/bin/fish\" ]; then\n  export PATH=\"$HOME/.local/bin:$PATH\"\nfi\n\n",
    );
    assert(SHELL_PATH_TEXT@.subrange(132, 142) =~= ".local/bin"@);
    assert(occurs_at(SHELL_PATH_TEXT@, ".local/bin"@, 132));
    let i = choose|i: int| occurs_at(bin_dir, ".local/bin"@, i);
    let head = "\n# Added by ToTray\nfish_add_path "@;
    assert(head.len() == 33);
    let f = fish_text(bin_dir);
    assert(f.subrange(33 + i, 33 + i + 10) =~= bin_dir.subrange(i, i + 10));
    assert(occurs_at(f, ".local/bin"@, 33 + i));
}

/// The text appended to the fish configuration, for the directory `bin_dir`.
pub open spec fn fish_text(bin_dir: Seq<char>) -> Seq<char> {
    "\n# Added by ToTray\nfish_add_path "@ + bin_dir + "\n\n"@
}

/// What is appended to `config.fish` to put `bin_dir` on the `PATH`.
pub fn fish_path_text(bin_dir: &str) -> (r: String)
    ensures
        r@ == fish_text(bin_dir@),
{
    let mut t = chars_of("\n# Added by ToTray\nfish_add_path ");
    append_chars(&mut t, chars_of(bin_dir).as_slice());
    append_chars(&mut t, chars_of("\n\n").as_slice());
    string_of(t.as_slice())
}

/// The snippet appended to the POSIX shell configurations.
pub const SHELL_PATH_TEXT: &'static str = "\n# Added by ToTray\nif [ -n \"$BASH_VERSION\" ] || [ -n \"$ZSH_VERSION\" ] || [ \"$SHELL\" != \"/usr/bin/fish\" ]; then\n  export PATH=\"$HOME/.local/bin:$PATH\"\nfi\n\n";

/// The contents of `environment.d/10-totray.conf`.
pub const ENVIRONMENT_PATH_TEXT: &'static str = "PATH=\"$HOME/.local/bin:$PATH\"\n";

/// The shell configurations that get the `PATH` snippet, below the home
/// directory.
pub fn shell_configs() -> (r: Vec<String>)
    ensures
        strs(r@) == seq![".bashrc"@, ".zshrc"@, ".profile"@, ".bash_profile"@],
{
    let mut r: Vec<String> = Vec::new();
    r.push(owned(".bashrc"));
    r.push(owned(".zshrc"));
    r.push(owned(".profile"));
    r.push(owned(".bash_profile"));
    assert(strs(r@) =~= seq![".bashrc"@, ".zshrc"@, ".profile"@, ".bash_profile"@]);
    r
}

/// The shell configurations cleaned on uninstall, below the home directory.
pub fn uninstall_configs() -> (r: Vec<String>)
    ensures
        strs(r@) == seq![
            ".bashrc"@,
            ".zshrc"@,
            ".profile"@,
            ".bash_profile"@,
            ".config/fish/config.fish"@,
        ],
{
    let mut r = shell_configs();
    let ghost before = strs(r@);
    r.push(owned(".config/fish/config.fish"));
    assert(strs(r@) =~= before.push(".config/fish/config.fish"@));
    assert(strs(r@) =~= seq![
        ".bashrc"@,
        ".zshrc"@,
        ".profile"@,
        ".bash_profile"@,
        ".config/fish/config.fish"@,
    ]);
    r
}

/// Whether a shell configuration line survives uninstalling: it is none of
/// the lines this program added.
pub open spec fn keeps_shell_line(l: Seq<char>) -> bool {
    !has_infix(l, "# Added by ToTray"@) && !has_infix(l, "totray"@) && !has_infix(
        l,
        "fish_add_path"@,
    )
}

/// A shell configuration without the added lines, joined by `\n`, with a
/// final `\n`.
pub open spec fn shell_config_cleaned(content: Seq<char>) -> Seq<char> {
    join(lines_of(content).filter(|l: Seq<char>| keeps_shell_line(l)), "\n"@) + "\n"@
}

/// Whether a shell configuration still mentions this program: the marker,
/// `totray` or `fish_add_path`.
pub open spec fn mentions_trace(t: Seq<char>) -> bool {
    has_infix(t, "# Added by ToTray"@) || has_infix(t, "totray"@) || has_infix(t, "fish_add_path"@)
}

/// A shell configuration after uninstalling: every copy of the block that
/// was appended to it (`appended`) is taken out, then the configuration is
/// written back line by line without the lines that mention a trace of this
/// program, each line ended by `\n`.
pub open spec fn path_config_uninstalled(content: Seq<char>, appended: Seq<char>) -> Seq<char> {
    shell_config_cleaned(without_all(content, appended))
}

/// The contents of a shell configuration after uninstalling, where
/// `appended` is the block that adding the `PATH` entry appends to it.
pub fn strip_path_config(content: &str, appended: &str) -> (r: String)
    ensures
        r@ == path_config_uninstalled(content@, appended@),
{
    let rest = remove_all(chars_of(content).as_slice(), chars_of(appended).as_slice());
    let added = chars_of("# Added by ToTray");
    let totray = chars_of("totray");
    let fish = chars_of("fish_add_path");
    let all = lines(rest.as_slice());
    let ghost ls = views(all@);
    let ghost pred = |l: Seq<char>| keeps_shell_line(l);
    let mut kept: Vec<Vec<char>> = Vec::new();
    let mut i: usize = 0;
    while i < all.len()
        invariant
            i <= all@.len(),
            ls == views(all@),
            added@ == "# Added by ToTray"@,
            totray@ == "totray"@,
            fish@ == "fish_add_path"@,
            pred == (|l: Seq<char>| keeps_shell_line(l)),
            views(kept@) == ls.take(i as int).filter(pred),
        decreases all@.len() - i,
    {
        proof {
            reveal_with_fuel(Seq::<_>::filter, 1);
            assert(ls.take(i + 1).drop_last() =~= ls.take(i as int));
        }
        let line = &all[i];
        if !contains(line.as_slice(), added.as_slice()) && !contains(
            line.as_slice(),
            totray.as_slice(),
        ) && !contains(line.as_slice(), fish.as_slice()) {
            let ghost before = views(kept@);
            kept.push(line.clone());
            assert(views(kept@) =~= before.push(ls[i as int]));
        }
        i = i + 1;
    }
    assert(ls.take(i as int) =~= ls);
    let newline = chars_of("\n");
    let mut out = join_exec(&kept, newline.as_slice());
    append_chars(&mut out, newline.as_slice());
    string_of(out.as_slice())
}

/// The first line of every block that adding the `PATH` entry appends: a
/// newline, the marker, a newline.
pub open spec fn block_head() -> Seq<char> {
    "\n# Added by ToTray\n"@
}

/// An appended block cannot begin inside text that lacks the marker:
/// it would have to hold the marker there, or overlap its own start.
proof fn lemma_block_starts_after(c: Seq<char>, a: Seq<char>, k: int)
    requires
        !has_infix(c, "# Added by ToTray"@),
        has_prefix(a, block_head()),
        0 <= k < c.len(),
    ensures
        !occurs_at(c + a, a, k),
{
    let h = block_head();
    let m = "# Added by ToTray"@;
    reveal_strlit("\n# Added by ToTray\n");
    reveal_strlit("# Added by ToTray");
    assert(h.len() == 19);
    assert(m.len() == 17);
    assert(a.subrange(0, 19) == h);
    assert forall|t: int| 0 <= t < 17 implies #[trigger] h[t + 1] == m[t] && m[t] != '\n' by {
        assert(h[t + 1] == m[t]);
    }
    if occurs_at(c + a, a, k) {
        let s = c + a;
        assert forall|t: int| 0 <= t < a.len() implies #[trigger] s[k + t] == a[t] by {
            assert(s.subrange(k, k + a.len())[t] == a[t]);
        }
        if k + 18 <= c.len() {
            assert(c.subrange(k + 1, k + 18) =~= m) by {
                assert forall|t: int| 0 <= t < 17 implies c.subrange(k + 1, k + 18)[t] == m[t] by {
                    assert(s[k + (t + 1)] == a[t + 1]);
                    assert(a[t + 1] == a.subrange(0, 19)[t + 1]);
                    assert(h[t + 1] == m[t]);
                }
            }
            assert(occurs_at(c, m, k + 1));
        } else {
            let d = c.len() - k;
            assert(1 <= d <= 17);
            assert(s[k + d] == a[d]);
            assert(s[c.len() as int] == a[0]);
            assert(a[0] == h[0]);
            assert(a[d] == h[d]);
            assert(h[(d - 1) + 1] == m[d - 1]);
        }
    }
}

/// What uninstalling leaves of the part of `c + a` from `k` on.
proof fn lemma_block_removed_from(c: Seq<char>, a: Seq<char>, k: int)
    requires
        !has_infix(c, "# Added by ToTray"@),
        has_prefix(a, block_head()),
        0 <= k <= c.len(),
    ensures
        without_all((c + a).subrange(k, (c.len() + a.len()) as int), a) == c.subrange(k, c.len() as int),
    decreases c.len() - k,
{
    reveal_strlit("\n# Added by ToTray\n");
    let s = (c + a).subrange(k, (c.len() + a.len()) as int);
    assert(a.len() >= 19);
    if k == c.len() {
        assert(s =~= a);
        assert(s.subrange(0, a.len() as int) =~= a);
        assert(has_prefix(s, a));
        let e = s.subrange(a.len() as int, s.len() as int);
        assert(e =~= Seq::<char>::empty());
        assert(without_all(s, a) == without_all(e, a));
        assert(without_all(e, a) == e);
        assert(c.subrange(k, c.len() as int) =~= Seq::<char>::empty());
    } else {
        lemma_block_starts_after(c, a, k);
        assert(!has_prefix(s, a)) by {
            if has_prefix(s, a) {
                assert((c + a).subrange(k, k + a.len()) =~= s.subrange(0, a.len() as int));
            }
        }
        assert(s.drop_first() =~= (c + a).subrange(k + 1, (c.len() + a.len()) as int));
        lemma_block_removed_from(c, a, k + 1);
        assert(s.len() > 0);
        assert(without_all(s, a) == seq![s[0]] + without_all(s.drop_first(), a));
        assert(s[0] == c[k]);
        assert(seq![c[k]] + c.subrange(k + 1, c.len() as int) =~= c.subrange(k, c.len() as int));
    }
}

/// Law: uninstalling undoes adding the `PATH` entry.  A shell
/// configuration written line by line (`ls`, each line ended by `\n`, none
/// ending in a carriage return) that mentions no trace of this program,
/// with a block `appended` to it, is given back exactly as it was.
pub proof fn lemma_uninstall_undoes_path_entry(ls: Seq<Seq<char>>, appended: Seq<char>)
    requires
        forall|i: int|
            0 <= i < ls.len() ==> free_of(#[trigger] ls[i], '\n') && !(ls[i].len() > 0
                && ls[i].last() == '\r'),
        !mentions_trace(join(ls, "\n"@) + "\n"@),
        has_prefix(appended, block_head()),
    ensures
        path_config_uninstalled(join(ls, "\n"@) + "\n"@ + appended, appended) == join(ls, "\n"@)
            + "\n"@,
{
    broadcast use vstd::seq_lib::group_filter_ensures;

    let c = join(ls, "\n"@) + "\n"@;
    lemma_block_removed_from(c, appended, 0);
    assert((c + appended).subrange(0, (c.len() + appended.len()) as int) =~= c + appended);
    assert(c.subrange(0, c.len() as int) =~= c);
    assert(without_all(c + appended, appended) == c);
    let pred = |l: Seq<char>| keeps_shell_line(l);
    lemma_lines_of_written(ls);
    if ls.len() == 0 {
        let one = seq![Seq::<char>::empty()];
        assert(keeps_shell_line(Seq::<char>::empty())) by {
            reveal_strlit("# Added by ToTray");
            reveal_strlit("totray");
            reveal_strlit("fish_add_path");
        }
        lemma_filter_all(one, pred);
        assert(join(one, "\n"@) == Seq::<char>::empty());
    } else {
        assert(ls.map_values(|l: Seq<char>| strip_cr(l)) =~= ls);
        assert forall|i: int| 0 <= i < ls.len() implies pred(#[trigger] ls[i]) by {
            let k = lemma_part_in_join(ls, "\n"@, i);
            let t = join(ls, "\n"@);
            assert(c.subrange(k, k + ls[i].len()) =~= t.subrange(k, k + ls[i].len()));
            if has_infix(ls[i], "# Added by ToTray"@) {
                lemma_infix_grows(ls[i], c, k, "# Added by ToTray"@);
            }
            if has_infix(ls[i], "totray"@) {
                lemma_infix_grows(ls[i], c, k, "totray"@);
            }
            if has_infix(ls[i], "fish_add_path"@) {
                lemma_infix_grows(ls[i], c, k, "fish_add_path"@);
            }
        }
        lemma_filter_all(ls, pred);
    }
}

/// Both blocks that adding the `PATH` entry appends begin with the marker
/// line.
pub proof fn lemma_path_blocks_start_with_marker(bin_dir: Seq<char>)
    ensures
        has_prefix(SHELL_PATH_TEXT@, block_head()),
        has_prefix(fish_text(bin_dir), block_head()),
{
    reveal_strlit("\n# Added by ToTray\n");
    reveal_strlit("\n# Added by ToTray\nfish_add_path ");
    reveal_strlit("\n\n");
    reveal_strlit(
        "\n# Added by ToTray\nif [ -n \"$BASH_VERSION\" ] || [ -n \"$ZSH_VERSION\" ] || [ \"$SHELL\" != \"/usr/bin/fish\" ]; then\n  export PATH=\"$HOME/.local/bin:$PATH\"\nfi\n\n",
    );
    assert(SHELL_PATH_TEXT@.subrange(0, 19) =~= block_head());
    assert(fish_text(bin_dir).subrange(0, 19) =~= block_head());
}

/// The path of the running binary as the kernel reports it, without the
/// ` (deleted)` that follows a binary replaced on disk.
pub open spec fn live_exe_path(raw: Seq<char>) -> Seq<char> {
    if has_suffix(raw, " (deleted)"@) {
        raw.subrange(0, raw.len() - " (deleted)"@.len())
    } else {
        raw
    }
}

/// Removes the ` (deleted)` suffix from the path of the running binary.
pub fn current_exe_path(raw: &str) -> (r: String)
    ensures
        r@ == live_exe_path(raw@),
{
    let t = chars_of(raw);
    let suffix = chars_of(" (deleted)");
    if ends_with(t.as_slice(), suffix.as_slice()) {
        string_of(slice_range(t.as_slice(), 0, t.len() - suffix.len()).as_slice())
    } else {
        string_of(t.as_slice())
    }
}

/// The directories of a `PATH` value, as `str::split(':')` gives them.
pub fn path_entries(path: &str) -> (r: Vec<String>)
    ensures
        strs(r@) == split_on(path@, ':'),
{
    let pieces = split(chars_of(path).as_slice(), ':');
    let ghost ps = views(pieces@);
    let mut r: Vec<String> = Vec::new();
    let mut i: usize = 0;
    while i < pieces.len()
        invariant
            i <= pieces@.len(),
            ps == views(pieces@),
            strs(r@) == ps.take(i as int),
        decreases pieces@.len() - i,
    {
        let ghost before = strs(r@);
        r.push(string_of(pieces[i].as_slice()));
        assert(strs(r@) =~= ps.take(i + 1)) by {
            assert(strs(r@) =~= before.push(ps[i as int]));
        }
        i = i + 1;
    }
    assert(ps.take(i as int) =~= ps);
    r
}

/// The verdict on one pair of chunks read from two files.
#[derive(Clone, Copy, Debug, PartialEq, Eq, Structural)]
pub enum ChunkVerdict {
    /// The files differ.
    Differ,
    /// Both files ended together: they are equal.
    Equal,
    /// The chunks agree; read on.
    Continue,
}

/// The verdict on chunks `a` and `b`, read at the same offset: different
/// lengths or bytes mean the files differ; two empty reads mean both ended.
pub open spec fn chunk_verdict(a: Seq<u8>, b: Seq<u8>) -> ChunkVerdict {
    if a.len() != b.len() || a != b {
        ChunkVerdict::Differ
    } else if a.len() == 0 {
        ChunkVerdict::Equal
    } else {
        ChunkVerdict::Continue
    }
}

/// Compares one pair of chunks of the two files being compared.
pub fn compare_chunks(a: &[u8], b: &[u8]) -> (r: ChunkVerdict)
    ensures
        r == chunk_verdict(a@, b@),
{
    if a.len() != b.len() {
        return ChunkVerdict::Differ;
    }
    if a.len() == 0 {
        assert(a@ =~= b@);
        return ChunkVerdict::Equal;
    }
    let mut k: usize = 0;
    while k < a.len()
        invariant
            a@.len() == b@.len(),
            k <= a@.len(),
            forall|m: int| 0 <= m < k ==> a@[m] == b@[m],
        decreases a@.len() - k,
    {
        if a[k] != b[k] {
            return ChunkVerdict::Differ;
        }
        k = k + 1;
    }
    assert(a@ =~= b@);
    ChunkVerdict::Continue
}

/// Whether the sizes of two files, where known, leave them possibly equal.
pub fn sizes_may_match(a: Option<u64>, b: Option<u64>) -> (r: bool)
    ensures
        r == !(a is Some && b is Some && a != b),
{
    match (a, b) {
        (Some(x), Some(y)) => x == y,
        _ => true,
    }
}

/// Law: the line filter that uninstalling falls back on leaves no line,
/// as read back line by line, that mentions the marker, `totray` or
/// `fish_add_path`.
pub proof fn lemma_cleaned_shell_config(content: Seq<char>)
    ensures
        forall|i: int|
            0 <= i < lines_of(shell_config_cleaned(content)).len() ==> keeps_shell_line(
                #[trigger] lines_of(shell_config_cleaned(content))[i],
            ),
{
    broadcast use vstd::seq_lib::group_filter_ensures;

    let ls = lines_of(content);
    let pred = |l: Seq<char>| keeps_shell_line(l);
    let free = |l: Seq<char>| free_of(l, '\n');
    lemma_lines_free(content);
    assert forall|i: int| 0 <= i < ls.len() implies free(#[trigger] ls[i]) by {}
    lemma_filter_keeps(ls, pred, free);
    let kept = ls.filter(pred);
    assert forall|i: int| 0 <= i < kept.len() implies free_of(#[trigger] kept[i], '\n')
        && keeps_shell_line(kept[i]) by {
        assert(free(kept[i]));
        assert(pred(kept[i]));
    }
    lemma_lines_of_written(kept);
    let out = lines_of(shell_config_cleaned(content));
    assert forall|i: int| 0 <= i < out.len() implies keeps_shell_line(#[trigger] out[i]) by {
        if kept.len() == 0 {
            assert(out[i] == Seq::<char>::empty());
            reveal_strlit("# Added by ToTray");
            reveal_strlit("totray");
            reveal_strlit("fish_add_path");
        } else {
            assert(out[i] == strip_cr(kept[i]));
            lemma_strip_cr_infix(kept[i], "# Added by ToTray"@);
            lemma_strip_cr_infix(kept[i], "totray"@);
            lemma_strip_cr_infix(kept[i], "fish_add_path"@);
        }
    }
}

} // verus!
