//! Activation: rewriting the persistent environment so that one installation is the
//! one that new shells resolve.
//!
//! The library reads and writes neither files nor the registry. The caller hands over
//! the current content of a shell start-up file, or the current search path, and stores
//! what comes back.

use vstd::prelude::*;
use vstd::string::StringExecFns;

use crate::config::{records, tracks_path, Config};
use crate::platform::{joined, tidy, Platform};
use crate::text::{
    chars_of, contains, contains_seq, holds_text, join, join_seq, lemma_split_head,
    lemma_split_join, lemma_split_pieces_have_no_sep, lines, lines_seq, lower_seq, split,
    split_seq, starts_with, starts_with_seq, string_of, texts, to_lower, views,
};

verus! {

// ---------------------------------------------------------------------------
// Shell start-up files
// ---------------------------------------------------------------------------

/// The comment that opens a managed block.
pub open spec fn sentinel() -> Seq<char> {
    "# Added by jaman"@
}

/// How a line that sets the home variable begins.
pub open spec fn home_export_prefix() -> Seq<char> {
    "export JAVA_HOME"@
}

/// How a line that sets the search path begins.
pub open spec fn path_export_prefix() -> Seq<char> {
    "export PATH"@
}

/// The line that sets the home variable to `home`.
pub open spec fn home_line(home: Seq<char>) -> Seq<char> {
    "export JAVA_HOME=\""@ + home + "\""@
}

/// The line that puts the active installation first in the search path.
pub open spec fn path_line() -> Seq<char> {
    "export PATH=\"$JAVA_HOME/bin:$PATH\""@
}

/// Whether a line opens a managed block: it holds the sentinel comment.
pub open spec fn is_sentinel(line: Seq<char>) -> bool {
    contains_seq(line, sentinel())
}

/// Whether a line has the form of one of the two exports of a managed block.
pub open spec fn is_managed_export(line: Seq<char>) -> bool {
    starts_with_seq(line, home_export_prefix()) || starts_with_seq(line, path_export_prefix())
}

/// The lines that are left when every managed block is taken out. A block is a sentinel
/// line and the export lines that follow it directly; it ends before the first line
/// that is neither. `skipping` tells whether the lines continue a block.
pub open spec fn strip_managed(lines: Seq<Seq<char>>, skipping: bool) -> Seq<Seq<char>>
    decreases lines.len(),
{
    if lines.len() == 0 {
        Seq::empty()
    } else if is_sentinel(lines[0]) {
        strip_managed(lines.drop_first(), true)
    } else if skipping && is_managed_export(lines[0]) {
        strip_managed(lines.drop_first(), true)
    } else {
        seq![lines[0]] + strip_managed(lines.drop_first(), false)
    }
}

/// The content of a start-up file without its managed blocks: the lines that are left,
/// joined by line feeds.
pub open spec fn without_managed(content: Seq<char>) -> Seq<char> {
    join_seq(strip_managed(lines_seq(content), false), "\n"@)
}

/// The managed block that makes `home` the active installation.
pub open spec fn managed_block(home: Seq<char>) -> Seq<char> {
    "\n"@ + sentinel() + "\n"@ + home_line(home) + "\n"@ + path_line() + "\n"@
}

/// The content of a start-up file after `home` has been activated: the old managed
/// blocks are gone and one new block stands at the end.
pub open spec fn activated(content: Seq<char>, home: Seq<char>) -> Seq<char> {
    without_managed(content) + managed_block(home)
}

/// The names of the start-up files that are rewritten, below the user's home directory.
pub open spec fn profile_names() -> Seq<Seq<char>> {
    seq![".bashrc"@, ".bash_profile"@, ".zshrc"@, ".profile"@]
}

/// The start-up files that are rewritten where they exist.
pub open spec fn profile_paths(home_dir: Seq<char>, platform: Platform) -> Seq<Seq<char>> {
    Seq::new(profile_names().len(), |i: int| joined(home_dir, profile_names()[i], platform))
}

// ---------------------------------------------------------------------------
// The persistent search path
// ---------------------------------------------------------------------------

/// Whether a segment of the search path stays when the runtime's own entries are taken
/// out: it stays unless it names `java`, in any letter case, without naming
/// `javascript`.
pub open spec fn keeps_segment(segment: Seq<char>) -> bool {
    !contains_seq(lower_seq(segment), "java"@) || contains_seq(lower_seq(segment), "javascript"@)
}

/// The `bin` directory of the installation at `home`, as an activation writes it into
/// the search path.
pub open spec fn bin_entry(home: Seq<char>) -> Seq<char> {
    joined(home, "bin"@, Platform::Windows)
}

/// Whether a segment of the search path stays when the managed entries are taken out:
/// it does not name the runtime, and it is none of `dropped`.
pub open spec fn keeps_entry(segment: Seq<char>, dropped: Seq<Seq<char>>) -> bool {
    keeps_segment(segment) && !dropped.contains(segment)
}

/// The search path without the segments that name the runtime and without those that
/// are among `dropped`.
pub open spec fn without_entries(path: Seq<char>, dropped: Seq<Seq<char>>) -> Seq<char> {
    join_seq(split_seq(path, ';').filter(|segment: Seq<char>| keeps_entry(segment, dropped)), ";"@)
}

/// The search path without the runtime's own entries.
pub open spec fn without_java(path: Seq<char>) -> Seq<char> {
    without_entries(path, Seq::empty())
}

/// The entries that an activation of `home` takes out of the search path: the `bin`
/// directory of the installation that was active before, where there was one, and its
/// own.
pub open spec fn managed_entries(previous: Option<Seq<char>>, home: Seq<char>) -> Seq<Seq<char>> {
    match previous {
        Some(p) => seq![bin_entry(p), bin_entry(home)],
        None => seq![bin_entry(home)],
    }
}

/// The entries that a deactivation takes out of the search path.
pub open spec fn released_entries(previous: Option<Seq<char>>) -> Seq<Seq<char>> {
    match previous {
        Some(p) => seq![bin_entry(p)],
        None => Seq::empty(),
    }
}

/// The search path after `home` has been activated: its `bin` directory first, then the
/// old path without the segments that name the runtime, without the `bin` directory of
/// the installation that was active before, and without its own.
pub open spec fn activated_path(
    path: Seq<char>,
    previous: Option<Seq<char>>,
    home: Seq<char>,
) -> Seq<char> {
    bin_entry(home) + ";"@ + without_entries(path, managed_entries(previous, home))
}

/// The search path after deactivation: without the segments that name the runtime and
/// without the `bin` directory of the installation that was active.
pub open spec fn deactivated_path(path: Seq<char>, previous: Option<Seq<char>>) -> Seq<char> {
    without_entries(path, released_entries(previous))
}

/// The `bin` directory of a home holds `;` only where the home does, and is never
/// empty.
proof fn lemma_bin_entry(home: Seq<char>)
    ensures
        bin_entry(home).len() >= 3,
        !home.contains(';') ==> !bin_entry(home).contains(';'),
{
    reveal_strlit("bin");
    let bin = bin_entry(home);
    if !home.contains(';') && bin.contains(';') {
        let j = choose|j: int| 0 <= j < bin.len() && bin[j] == ';';
        if j < home.len() {
            assert(home[j] == ';');
        }
    }
}

/// After an activation the search path begins with the `bin` directory of the
/// activated installation, and no later segment is that directory, the `bin` directory
/// of the installation that was active before, or one that names the runtime. This asks
/// of `home` that it holds no `;`.
pub proof fn lemma_activated_path_segments(
    path: Seq<char>,
    previous: Option<Seq<char>>,
    home: Seq<char>,
)
    requires
        !home.contains(';'),
    ensures
        split_seq(activated_path(path, previous, home), ';').len() >= 2,
        split_seq(activated_path(path, previous, home), ';')[0] == bin_entry(home),
        forall|k: int|
            1 <= k < split_seq(activated_path(path, previous, home), ';').len() ==> keeps_entry(
                #[trigger] split_seq(activated_path(path, previous, home), ';')[k],
                managed_entries(previous, home),
            ),
{
    reveal_strlit(";");
    reveal_strlit("java");
    let dropped = managed_entries(previous, home);
    let keep = |segment: Seq<char>| keeps_entry(segment, dropped);
    let kept = split_seq(path, ';').filter(keep);
    let rest = join_seq(kept, ";"@);
    let bin = bin_entry(home);
    let text = activated_path(path, previous, home);
    lemma_bin_entry(home);
    assert(";"@ =~= seq![';']);
    assert(text =~= bin.push(';') + rest);
    lemma_split_head(bin, rest, ';');
    let later = split_seq(rest, ';');
    let all = split_seq(text, ';');
    assert(all == seq![bin] + later);
    lemma_split_pieces_have_no_sep(rest, ';');
    if kept.len() == 0 {
        let nothing = Seq::<char>::empty();
        assert(rest =~= nothing);
        assert(later =~= seq![nothing]);
        assert(keeps_segment(nothing)) by {
            if contains_seq(lower_seq(nothing), "java"@) {
                let i = choose|i: int| crate::text::occurs_at(lower_seq(nothing), "java"@, i);
                assert(false);
            }
        }
        assert(!dropped.contains(nothing)) by {
            if dropped.contains(nothing) {
                let j = choose|j: int| 0 <= j < dropped.len() && dropped[j] == nothing;
                if previous is Some {
                    lemma_bin_entry(previous->Some_0);
                }
                assert(dropped[j].len() >= 3);
            }
        }
    } else {
        lemma_split_pieces_have_no_sep(path, ';');
        assert forall|k: int| 0 <= k < kept.len() implies !(#[trigger] kept[k]).contains(';') by {
            assert(kept.contains(kept[k]));
            split_seq(path, ';').lemma_filter_contains_rev(keep, kept[k]);
            let m = choose|m: int|
                0 <= m < split_seq(path, ';').len() && split_seq(path, ';')[m] == kept[k];
            assert(!split_seq(path, ';')[m].contains(';'));
        }
        lemma_split_join(kept, ';');
        assert(later == kept);
        assert forall|k: int| 0 <= k < kept.len() implies keeps_entry(#[trigger] kept[k], dropped) by {
            split_seq(path, ';').lemma_filter_pred(keep, k);
        }
    }
    assert forall|k: int| 1 <= k < all.len() implies keeps_entry(#[trigger] all[k], dropped) by {
        assert(all[k] == later[k - 1]);
    }
}

/// Activating one installation and then another leaves no segment of the first in the
/// search path: the path begins with the `bin` directory of the second, and no later
/// segment is the `bin` directory of either. Activations do not pile up. This asks of
/// the second home that it holds no `;`.
pub proof fn lemma_second_activation_drops_first(
    path: Seq<char>,
    previous: Option<Seq<char>>,
    first: Seq<char>,
    second: Seq<char>,
)
    requires
        !second.contains(';'),
    ensures
        ({
            let twice = activated_path(activated_path(path, previous, first), Some(first), second);
            let segments = split_seq(twice, ';');
            &&& segments[0] == bin_entry(second)
            &&& forall|k: int|
                1 <= k < segments.len() ==> (#[trigger] segments[k]) != bin_entry(first)
                    && segments[k] != bin_entry(second)
        }),
{
    let once = activated_path(path, previous, first);
    let dropped = managed_entries(Some(first), second);
    lemma_activated_path_segments(once, Some(first), second);
    let segments = split_seq(activated_path(once, Some(first), second), ';');
    assert(dropped[0] == bin_entry(first) && dropped[1] == bin_entry(second));
    assert forall|k: int| 1 <= k < segments.len() implies (#[trigger] segments[k]) != bin_entry(first)
        && segments[k] != bin_entry(second) by {
        assert(keeps_entry(segments[k], dropped));
        if segments[k] == bin_entry(first) {
            assert(dropped.contains(dropped[0]));
        }
        if segments[k] == bin_entry(second) {
            assert(dropped.contains(dropped[1]));
        }
    }
}

// ---------------------------------------------------------------------------
// Activation leaves one managed block
// ---------------------------------------------------------------------------

/// The lines inside managed blocks that set the home variable, in their order.
/// `skipping` tells whether the lines continue a block.
pub open spec fn managed_homes(lines: Seq<Seq<char>>, skipping: bool) -> Seq<Seq<char>>
    decreases lines.len(),
{
    if lines.len() == 0 {
        Seq::empty()
    } else if is_sentinel(lines[0]) {
        managed_homes(lines.drop_first(), true)
    } else if skipping && is_managed_export(lines[0]) {
        (if starts_with_seq(lines[0], home_export_prefix()) {
            seq![lines[0]]
        } else {
            Seq::empty()
        }) + managed_homes(lines.drop_first(), true)
    } else {
        managed_homes(lines.drop_first(), false)
    }
}

/// The assignments of the home variable that the managed blocks of a start-up file
/// hold.
pub open spec fn home_assignments(content: Seq<char>) -> Seq<Seq<char>> {
    managed_homes(lines_seq(content), false)
}

/// No line opens a managed block.
pub open spec fn all_quiet(lines: Seq<Seq<char>>) -> bool {
    forall|k: int| 0 <= k < lines.len() ==> !is_sentinel(#[trigger] lines[k])
}

/// No line holds a line feed.
pub open spec fn all_single(lines: Seq<Seq<char>>) -> bool {
    forall|k: int| 0 <= k < lines.len() ==> !(#[trigger] lines[k]).contains('\n')
}

/// What is left after the managed blocks are taken out holds no sentinel line, and no
/// line that was not there before.
proof fn lemma_strip_managed_quiet(lines: Seq<Seq<char>>, skipping: bool)
    ensures
        all_quiet(strip_managed(lines, skipping)),
        all_single(lines) ==> all_single(strip_managed(lines, skipping)),
    decreases lines.len(),
{
    if lines.len() > 0 {
        let rest = lines.drop_first();
        let out = strip_managed(lines, skipping);
        if all_single(lines) {
            assert forall|k: int| 0 <= k < rest.len() implies !(#[trigger] rest[k]).contains(
                '\n',
            ) by {
                assert(rest[k] == lines[k + 1]);
            }
        }
        if is_sentinel(lines[0]) || (skipping && is_managed_export(lines[0])) {
            lemma_strip_managed_quiet(rest, true);
        } else {
            lemma_strip_managed_quiet(rest, false);
            let inner = strip_managed(rest, false);
            assert forall|k: int| 0 <= k < out.len() implies !is_sentinel(#[trigger] out[k]) by {
                if k > 0 {
                    assert(out[k] == inner[k - 1]);
                }
            }
            if all_single(lines) {
                assert forall|k: int| 0 <= k < out.len() implies !(#[trigger] out[k]).contains(
                    '\n',
                ) by {
                    if k > 0 {
                        assert(out[k] == inner[k - 1]);
                    } else {
                        assert(out[0] == lines[0]);
                    }
                }
            }
        }
    }
}

/// A line without its trailing carriage return opens a block only if the line does.
proof fn lemma_strip_cr_quiet(line: Seq<char>)
    requires
        !is_sentinel(line),
    ensures
        !is_sentinel(crate::text::strip_cr(line)),
{
    let stripped = crate::text::strip_cr(line);
    if is_sentinel(stripped) {
        assert(stripped =~= line.subrange(0, stripped.len() as int));
        crate::text::lemma_contains_in_prefix(line, stripped.len() as int, sentinel());
    }
}

/// Kept lines that are joined by line feeds and read again open no managed block.
proof fn lemma_joined_lines_quiet(kept: Seq<Seq<char>>)
    requires
        all_quiet(kept),
        all_single(kept),
    ensures
        all_quiet(lines_seq(join_seq(kept, "\n"@).push('\n'))),
    decreases kept.len(),
{
    reveal_strlit("\n");
    reveal_strlit("# Added by jaman");
    let feed = "\n"@;
    let text = join_seq(kept, feed).push('\n');
    if kept.len() == 0 {
        let nothing = Seq::<char>::empty();
        assert(text =~= nothing.push('\n'));
        crate::text::lemma_line_with_feed(nothing);
        assert(!is_sentinel(nothing)) by {
            if is_sentinel(nothing) {
                let i = choose|i: int| crate::text::occurs_at(nothing, sentinel(), i);
                assert(false);
            }
        }
        lemma_strip_cr_quiet(nothing);
    } else if kept.len() == 1 {
        assert(!kept[0].contains('\n'));
        crate::text::lemma_line_with_feed(kept[0]);
        lemma_strip_cr_quiet(kept[0]);
    } else {
        let rest = kept.drop_first();
        assert forall|k: int| 0 <= k < rest.len() implies !is_sentinel(#[trigger] rest[k]) by {
            assert(rest[k] == kept[k + 1]);
        }
        assert forall|k: int| 0 <= k < rest.len() implies !(#[trigger] rest[k]).contains('\n') by {
            assert(rest[k] == kept[k + 1]);
        }
        lemma_joined_lines_quiet(rest);
        let first = kept[0].push('\n');
        let others = join_seq(rest, feed).push('\n');
        assert(text =~= first + others);
        assert(!kept[0].contains('\n'));
        crate::text::lemma_line_with_feed(kept[0]);
        crate::text::lemma_lines_concat(first, others);
        lemma_strip_cr_quiet(kept[0]);
        let all = lines_seq(text);
        assert forall|k: int| 0 <= k < all.len() implies !is_sentinel(#[trigger] all[k]) by {
            if k > 0 {
                assert(all[k] == lines_seq(others)[k - 1]);
            }
        }
    }
}

/// Lines that open no block, read outside a block, add no managed assignment.
proof fn lemma_quiet_prefix(xs: Seq<Seq<char>>, ys: Seq<Seq<char>>)
    requires
        all_quiet(xs),
    ensures
        managed_homes(xs + ys, false) == managed_homes(ys, false),
    decreases xs.len(),
{
    if xs.len() == 0 {
        assert(xs + ys =~= ys);
    } else {
        let rest = xs.drop_first();
        assert forall|k: int| 0 <= k < rest.len() implies !is_sentinel(#[trigger] rest[k]) by {
            assert(rest[k] == xs[k + 1]);
        }
        lemma_quiet_prefix(rest, ys);
        assert((xs + ys).drop_first() =~= rest + ys);
        assert((xs + ys)[0] == xs[0]);
    }
}

/// The line that sets the home variable opens no block, unless the home itself holds
/// the sentinel.
proof fn lemma_home_line_quiet(home: Seq<char>)
    requires
        !contains_seq(home, sentinel()),
    ensures
        !is_sentinel(home_line(home)),
        starts_with_seq(home_line(home), home_export_prefix()),
        home.contains('\n') <==> home_line(home).contains('\n'),
{
    reveal_strlit("# Added by jaman");
    reveal_strlit("export JAVA_HOME=\"");
    reveal_strlit("export JAVA_HOME");
    reveal_strlit("\"");
    let line = home_line(home);
    let head = "export JAVA_HOME=\""@;
    let mark = sentinel();
    assert(line.subrange(0, 16) =~= home_export_prefix());
    if is_sentinel(line) {
        let i = choose|i: int| crate::text::occurs_at(line, mark, i);
        let found = line.subrange(i, i + 16);
        assert(found[0] == '#');
        assert(found[15] == 'n');
        if i < 18 {
            assert(line[i] == head[i]);
            assert(false);
        }
        if i + 16 == line.len() {
            assert(line[i + 15] == '"');
            assert(false);
        }
        assert(home.subrange(i - 18, i - 18 + 16) =~= found);
        assert(crate::text::occurs_at(home, mark, i - 18));
    }
    if home.contains('\n') {
        let j = choose|j: int| 0 <= j < home.len() && home[j] == '\n';
        assert(line[j + 18] == '\n');
    }
    if line.contains('\n') {
        let j = choose|j: int| 0 <= j < line.len() && line[j] == '\n';
        if j < 18 {
            assert(line[j] == head[j]);
        } else if j < 18 + home.len() {
            assert(home[j - 18] == '\n');
        }
    }
}

/// The line that extends the search path opens no block and assigns no home.
proof fn lemma_path_line_quiet()
    ensures
        !is_sentinel(path_line()),
        !path_line().contains('\n'),
        starts_with_seq(path_line(), path_export_prefix()),
        !starts_with_seq(path_line(), home_export_prefix()),
        !is_sentinel(sentinel().subrange(0, 0)),
{
    reveal_strlit("# Added by jaman");
    reveal_strlit("export PATH=\"$JAVA_HOME/bin:$PATH\"");
    reveal_strlit("export PATH");
    reveal_strlit("export JAVA_HOME");
    let line = path_line();
    assert(line.len() == 34);
    assert(forall|j: int| 0 <= j < 34 ==> line[j] != '#' && line[j] != '\n');
    if is_sentinel(line) {
        let i = choose|i: int| crate::text::occurs_at(line, sentinel(), i);
        assert(line.subrange(i, i + 16)[0] == '#');
        assert(line[i] == '#');
    }
    assert(line.subrange(0, 11) =~= path_export_prefix());
    if starts_with_seq(line, home_export_prefix()) {
        assert(line.subrange(0, 16)[7] == 'P');
        assert(home_export_prefix()[7] == 'J');
    }
    let nothing = sentinel().subrange(0, 0);
    if is_sentinel(nothing) {
        let i = choose|i: int| crate::text::occurs_at(nothing, sentinel(), i);
        assert(false);
    }
}

/// After an activation the managed blocks of the file hold exactly one assignment of
/// the home variable, and it names the activated installation, whatever the file held
/// before. This asks of `home` that it holds no line feed and not the sentinel comment.
pub proof fn lemma_activation_leaves_one_home(content: Seq<char>, home: Seq<char>)
    requires
        !home.contains('\n'),
        !contains_seq(home, sentinel()),
    ensures
        home_assignments(activated(content, home)) == seq![home_line(home)],
{
    reveal_strlit("\n");
    reveal_strlit("# Added by jaman");
    let feed = "\n"@;
    assert(feed =~= seq!['\n']);
    let kept = strip_managed(lines_seq(content), false);
    crate::text::lemma_lines_have_no_feed(content);
    lemma_strip_managed_quiet(lines_seq(content), false);
    lemma_joined_lines_quiet(kept);
    lemma_home_line_quiet(home);
    lemma_path_line_quiet();
    let body = join_seq(kept, feed).push('\n');
    let opening = sentinel().push('\n');
    let home_part = home_line(home).push('\n');
    let path_part = path_line().push('\n');
    let text = activated(content, home);
    assert(text =~= body + (opening + (home_part + path_part)));
    assert(!sentinel().contains('\n')) by {
        if sentinel().contains('\n') {
            let j = choose|j: int| 0 <= j < sentinel().len() && sentinel()[j] == '\n';
            assert(sentinel()[j] != '\n');
        }
    }
    crate::text::lemma_line_with_feed(sentinel());
    crate::text::lemma_line_with_feed(home_line(home));
    crate::text::lemma_line_with_feed(path_line());
    crate::text::lemma_lines_concat(home_part, path_part);
    crate::text::lemma_lines_concat(opening, home_part + path_part);
    crate::text::lemma_lines_concat(body, opening + (home_part + path_part));
    reveal_strlit("export JAVA_HOME=\"");
    reveal_strlit("\"");
    reveal_strlit("export PATH=\"$JAVA_HOME/bin:$PATH\"");
    assert(crate::text::strip_cr(sentinel()) == sentinel());
    assert(crate::text::strip_cr(home_line(home)) == home_line(home));
    assert(crate::text::strip_cr(path_line()) == path_line());
    let block = seq![sentinel(), home_line(home), path_line()];
    assert(lines_seq(opening + (home_part + path_part)) =~= block);
    assert(lines_seq(text) == lines_seq(body) + block);
    lemma_quiet_prefix(lines_seq(body), block);
    assert(is_sentinel(sentinel())) by {
        assert(sentinel().subrange(0, 16) =~= sentinel());
        assert(crate::text::occurs_at(sentinel(), sentinel(), 0));
    }
    let after_mark = block.drop_first();
    let after_home = after_mark.drop_first();
    assert(after_mark[0] == home_line(home));
    assert(after_home[0] == path_line());
    assert(after_home.drop_first() =~= Seq::<Seq<char>>::empty());
    assert(managed_homes(after_home.drop_first(), true) =~= Seq::<Seq<char>>::empty());
    assert(managed_homes(after_home, true) =~= Seq::<Seq<char>>::empty());
    assert(managed_homes(after_mark, true) =~= seq![home_line(home)]);
    assert(managed_homes(block, false) =~= seq![home_line(home)]);
}

/// Activating one installation and then another leaves exactly one managed assignment
/// of the home variable, that of the second: activations do not pile up. This asks of
/// the second home that it holds no line feed and not the sentinel comment.
pub proof fn lemma_activation_idempotent(content: Seq<char>, first: Seq<char>, second: Seq<char>)
    requires
        !second.contains('\n'),
        !contains_seq(second, sentinel()),
    ensures
        home_assignments(activated(activated(content, first), second)) == seq![home_line(second)],
{
    lemma_activation_leaves_one_home(activated(content, first), second);
}

/// Unit type that gathers the activation functions.
pub struct PathManager;

impl PathManager {
    /// The content of a shell start-up file without its managed blocks.
    pub fn remove_jaman_entries(content: &str) -> (r: String)
        ensures
            r@ == without_managed(content@),
    {
        let all = lines(&chars_of(content));
        let mark = chars_of("# Added by jaman");
        let home_export = chars_of("export JAVA_HOME");
        let path_export = chars_of("export PATH");
        let mut kept: Vec<Vec<char>> = Vec::new();
        let mut skipping = false;
        let mut i: usize = 0;
        assert(views(all@).skip(0) =~= views(all@));
        while i < all.len()
            invariant
                i <= all.len(),
                mark@ == sentinel(),
                home_export@ == home_export_prefix(),
                path_export@ == path_export_prefix(),
                strip_managed(views(all@), false) == views(kept@) + strip_managed(
                    views(all@).skip(i as int),
                    skipping,
                ),
            decreases all.len() - i,
        {
            let ghost tail = views(all@).skip(i as int);
            proof {
                assert(tail.drop_first() =~= views(all@).skip(i + 1));
                assert(tail[0] == all@[i as int]@);
            }
            let line = &all[i];
            if contains(line, &mark) {
                skipping = true;
            } else if skipping && (starts_with(line, &home_export) || starts_with(
                line,
                &path_export,
            )) {
            } else {
                skipping = false;
                let copy = line.clone();
                proof {
                    assert(copy@ == line@);
                    assert(views(kept@.push(copy)) =~= views(kept@) + seq![tail[0]]);
                }
                kept.push(copy);
            }
            i += 1;
        }
        proof {
            assert(views(all@).skip(all.len() as int) =~= Seq::<Seq<char>>::empty());
            assert(views(kept@) + Seq::<Seq<char>>::empty() =~= views(kept@));
            reveal_strlit("\n");
        }
        let feed = chars_of("\n");
        string_of(&join(&kept, &feed))
    }

    /// The content of a shell start-up file after `java_home` has been activated: the
    /// old managed blocks are gone, and a new block at the end sets the home variable
    /// to `java_home` and puts its `bin` directory first in the search path. Whatever
    /// the file held before, its managed blocks then hold this one assignment of the
    /// home variable, provided that `java_home` holds no line feed and not the
    /// sentinel comment.
    pub fn activated_profile(content: &str, java_home: &str) -> (r: String)
        ensures
            r@ == activated(content@, java_home@),
            !java_home@.contains('\n') && !contains_seq(java_home@, sentinel()) ==> home_assignments(
                r@,
            ) == seq![home_line(java_home@)],
    {
        proof {
            if !java_home@.contains('\n') && !contains_seq(java_home@, sentinel()) {
                lemma_activation_leaves_one_home(content@, java_home@);
            }
        }
        let cleaned = PathManager::remove_jaman_entries(content);
        let r = cleaned.concat("\n").concat("# Added by jaman").concat("\n").concat(
            "export JAVA_HOME=\"",
        ).concat(java_home).concat("\"").concat("\n").concat(
            "export PATH=\"$JAVA_HOME/bin:$PATH\"",
        ).concat("\n");
        assert(r@ =~= activated(content@, java_home@));
        r
    }

    /// The content of a shell start-up file after deactivation: the managed blocks are
    /// gone and nothing is put in their place.
    pub fn deactivated_profile(content: &str) -> (r: String)
        ensures
            r@ == without_managed(content@),
    {
        PathManager::remove_jaman_entries(content)
    }

    /// The shell start-up files that are rewritten where they exist, below the user's
    /// home directory.
    pub fn shell_configs(home_dir: &str, platform: Platform) -> (r: Vec<String>)
        ensures
            crate::text::texts(r@) == profile_paths(home_dir@, platform),
    {
        let mut files: Vec<String> = Vec::new();
        files.push(platform.join(home_dir, ".bashrc"));
        files.push(platform.join(home_dir, ".bash_profile"));
        files.push(platform.join(home_dir, ".zshrc"));
        files.push(platform.join(home_dir, ".profile"));
        assert(crate::text::texts(files@) =~= profile_paths(home_dir@, platform));
        files
    }

    /// The search path without the segments that name `java` in any letter case (those
    /// that name `javascript` stay) and without the segments that are among `dropped`.
    pub fn remove_entries(path: &str, dropped: &Vec<String>) -> (r: String)
        ensures
            r@ == without_entries(path@, texts(dropped@)),
    {
        let ghost keep = |segment: Seq<char>| keeps_entry(segment, texts(dropped@));
        let segments = split(&chars_of(path), ';');
        let java = chars_of("java");
        let javascript = chars_of("javascript");
        let mut kept: Vec<Vec<char>> = Vec::new();
        let mut i: usize = 0;
        proof {
            assert(views(segments@).take(0) =~= Seq::<Seq<char>>::empty());
            reveal(Seq::filter);
        }
        while i < segments.len()
            invariant
                i <= segments.len(),
                java@ == "java"@,
                javascript@ == "javascript"@,
                keep == |segment: Seq<char>| keeps_entry(segment, texts(dropped@)),
                views(kept@) == views(segments@).take(i as int).filter(keep),
            decreases segments.len() - i,
        {
            let segment = &segments[i];
            let lower = to_lower(segment);
            proof {
                let all = views(segments@);
                assert(all.take(i + 1) =~= all.take(i as int).push(all[i as int]));
                all.take(i as int).lemma_filter_push(all[i as int], keep);
            }
            let names_runtime = contains(&lower, &java) && !contains(&lower, &javascript);
            if !names_runtime && !holds_text(dropped, &string_of(segment)) {
                let copy = segment.clone();
                proof {
                    assert(copy@ == segment@);
                    assert(views(kept@.push(copy)) =~= views(kept@).push(segment@));
                }
                kept.push(copy);
            }
            i += 1;
        }
        proof {
            assert(views(segments@).take(segments.len() as int) =~= views(segments@));
            reveal_strlit(";");
        }
        let semicolon = chars_of(";");
        string_of(&join(&kept, &semicolon))
    }

    /// The search path without the runtime's own entries: the segments between `;`
    /// that name `java` in any letter case, except those that name `javascript`.
    pub fn remove_java_paths(path: &str) -> (r: String)
        ensures
            r@ == without_java(path@),
    {
        let nothing: Vec<String> = Vec::new();
        assert(texts(nothing@) =~= Seq::<Seq<char>>::empty());
        PathManager::remove_entries(path, &nothing)
    }

    /// The persistent search path after `java_home` has been activated: its `bin`
    /// directory first, then the old path without the segments that name the runtime,
    /// without the `bin` directory of `previous_home`, the value that the home variable
    /// had before, and without its own. What an earlier activation put into the path
    /// is gone, so activations do not pile up.
    pub fn activated_search_path(current: &str, previous_home: Option<&str>, java_home: &str) -> (r:
        String)
        ensures
            r@ == activated_path(
                current@,
                match previous_home {
                    Some(p) => Some(p@),
                    None => None,
                },
                java_home@,
            ),
    {
        let bin = Platform::Windows.join(java_home, "bin");
        let mut dropped: Vec<String> = Vec::new();
        match previous_home {
            Some(p) => {
                dropped.push(Platform::Windows.join(p, "bin"));
                dropped.push(bin.clone());
                assert(texts(dropped@) =~= managed_entries(Some(p@), java_home@));
            },
            None => {
                dropped.push(bin.clone());
                assert(texts(dropped@) =~= managed_entries(None, java_home@));
            },
        }
        let cleaned = PathManager::remove_entries(current, &dropped);
        bin.concat(";").concat(cleaned.as_str())
    }

    /// The persistent search path after deactivation: without the segments that name
    /// the runtime and without the `bin` directory of `previous_home`, the value that
    /// the home variable had.
    pub fn deactivated_search_path(current: &str, previous_home: Option<&str>) -> (r: String)
        ensures
            r@ == deactivated_path(
                current@,
                match previous_home {
                    Some(p) => Some(p@),
                    None => None,
                },
            ),
    {
        let mut dropped: Vec<String> = Vec::new();
        match previous_home {
            Some(p) => {
                dropped.push(Platform::Windows.join(p, "bin"));
                assert(texts(dropped@) =~= released_entries(Some(p@)));
            },
            None => {
                assert(texts(dropped@) =~= released_entries(None));
            },
        }
        PathManager::remove_entries(current, &dropped)
    }

    /// Whether the installation that the environment points at is one that the
    /// registry tracks. `java_home` is the current value of the home variable, `None`
    /// where it is not set; separators at its end make no difference.
    pub fn is_jaman_active(config: &Config, java_home: Option<&str>, platform: Platform) -> (r:
        bool)
        ensures
            r == match java_home {
                Some(home) => tracks_path(config@.installed_versions, tidy(home@, platform)),
                None => false,
            },
    {
        match java_home {
            Some(home) => {
                let wanted = platform.tidy(home);
                let ghost all = records(config.installed_versions@);
                let mut i: usize = 0;
                while i < config.installed_versions.len()
                    invariant
                        i <= config.installed_versions.len(),
                        java_home == Some(home),
                        wanted@ == tidy(home@, platform),
                        all == records(config.installed_versions@),
                        forall|j: int| 0 <= j < i ==> (#[trigger] all[j]).path != wanted@,
                    decreases config.installed_versions.len() - i,
                {
                    if config.installed_versions[i].path == wanted {
                        assert(all[i as int].path == wanted@);
                        return true;
                    }
                    i += 1;
                }
                false
            },
            None => false,
        }
    }
}

} // verus!
