//! The lines that the commands print, as texts.
//!
//! Sizes are put into words by the `humansize` crate; counts are written in
//! decimal digits.

use crate::advice::{IgnoreAction, IgnoreActionView, Suggestion, SuggestionView};
use crate::aggregate::{MatchInfo, MatchView, RuleAggregate};
use crate::clean::CleanAction;
use crate::text::texts;
use vstd::prelude::*;
use vstd::string::*;

verus! {

/// How many example paths a scan prints for a group.
pub const SHOWN_EXAMPLES: usize = 3;

/// The text that `humansize::format_size` gives for a number of bytes with
/// its `DECIMAL` options (powers of 1000, short units).
pub uninterp spec fn size_text(bytes: u64) -> Seq<char>;

/// `humansize::format_size` with the `DECIMAL` options: the text depends on
/// the number alone.
#[verifier::external_body]
pub(crate) fn format_bytes(bytes: u64) -> (text: String)
    ensures
        text@ == size_text(bytes),
{
    humansize::format_size(bytes, humansize::DECIMAL)
}

/// The character of a decimal digit.
pub open spec fn digit_char(digit: nat) -> char {
    if digit == 0 {
        '0'
    } else if digit == 1 {
        '1'
    } else if digit == 2 {
        '2'
    } else if digit == 3 {
        '3'
    } else if digit == 4 {
        '4'
    } else if digit == 5 {
        '5'
    } else if digit == 6 {
        '6'
    } else if digit == 7 {
        '7'
    } else if digit == 8 {
        '8'
    } else {
        '9'
    }
}

/// A number in decimal digits, without leading zeros.
pub open spec fn decimal_digits(n: nat) -> Seq<char>
    decreases n,
{
    if n < 10 {
        seq![digit_char(n)]
    } else {
        decimal_digits(n / 10).push(digit_char(n % 10))
    }
}

fn digit_str(digit: u64) -> (text: &'static str)
    requires
        digit < 10,
    ensures
        text@ == seq![digit_char(digit as nat)],
{
    proof {
        reveal_strlit("0");
        reveal_strlit("1");
        reveal_strlit("2");
        reveal_strlit("3");
        reveal_strlit("4");
        reveal_strlit("5");
        reveal_strlit("6");
        reveal_strlit("7");
        reveal_strlit("8");
        reveal_strlit("9");
    }
    let text = if digit == 0 {
        "0"
    } else if digit == 1 {
        "1"
    } else if digit == 2 {
        "2"
    } else if digit == 3 {
        "3"
    } else if digit == 4 {
        "4"
    } else if digit == 5 {
        "5"
    } else if digit == 6 {
        "6"
    } else if digit == 7 {
        "7"
    } else if digit == 8 {
        "8"
    } else {
        "9"
    };
    assert(text@ =~= seq![digit_char(digit as nat)]);
    text
}

/// The digits of a list of numbers below ten, last number first.
spec fn digits_reversed(low: Seq<u64>) -> Seq<char> {
    Seq::new(low.len(), |k: int| digit_char(low[low.len() - 1 - k] as nat))
}

/// Writes a number in decimal digits.
pub fn decimal(n: u64) -> (text: String)
    ensures
        text@ == decimal_digits(n as nat),
{
    let mut low: Vec<u64> = Vec::new();
    let mut rest: u64 = n;
    assert(decimal_digits(n as nat) =~= decimal_digits(rest as nat) + digits_reversed(low@));
    while rest >= 10
        invariant
            decimal_digits(n as nat) == decimal_digits(rest as nat) + digits_reversed(low@),
            forall|k: int| 0 <= k < low@.len() ==> low@[k] < 10,
        decreases rest,
    {
        let ghost before = low@;
        low.push(rest % 10);
        proof {
            assert(digits_reversed(low@) =~= seq![digit_char((rest % 10) as nat)]
                + digits_reversed(before));
            assert(decimal_digits(rest as nat) =~= decimal_digits((rest / 10) as nat) + seq![
                digit_char((rest % 10) as nat),
            ]);
        }
        rest = rest / 10;
    }
    let mut text: String = digit_str(rest).to_owned();
    let mut i: usize = low.len();
    assert(text@ =~= decimal_digits(rest as nat) + digits_reversed(low@).take(0));
    while i > 0
        invariant
            i <= low@.len(),
            rest < 10,
            forall|k: int| 0 <= k < low@.len() ==> low@[k] < 10,
            text@ == decimal_digits(rest as nat) + digits_reversed(low@).take(low@.len() - i),
        decreases i,
    {
        i = i - 1;
        text.append(digit_str(low[i]));
        proof {
            let all = digits_reversed(low@);
            let done = low@.len() - i;
            assert(all.take(done) =~= all.take(done - 1) + seq![digit_char(low@[i as int] as nat)]);
        }
    }
    assert(digits_reversed(low@).take(low@.len() as int) =~= digits_reversed(low@));
    text
}

/// First line of a scan's output.
pub open spec fn scan_heading(root: Seq<char>) -> Seq<char> {
    "Scanning "@ + root
}

/// The line that sums a scan up.
pub open spec fn scan_summary(total: u64, groups: nat) -> Seq<char> {
    "Found total "@ + size_text(total) + " across "@ + decimal_digits(groups)
        + " matched groups"@
}

/// The line of one group of a scan.
pub open spec fn group_line(key: Seq<char>, total_bytes: u64, count: nat) -> Seq<char> {
    "- "@ + key + ": "@ + size_text(total_bytes) + " in "@ + decimal_digits(count) + " items"@
}

/// The line of one example path.
pub open spec fn example_line(path: Seq<char>) -> Seq<char> {
    "  example: "@ + path
}

/// How many of `len` examples are printed.
pub open spec fn shown_count(len: nat) -> nat {
    if len <= SHOWN_EXAMPLES {
        len
    } else {
        SHOWN_EXAMPLES as nat
    }
}

/// The lines of the first `n` examples.
pub open spec fn example_lines(examples: Seq<Seq<char>>, n: nat) -> Seq<Seq<char>> {
    Seq::new(n, |i: int| example_line(examples[i]))
}

/// The lines of one group: its own, then those of its first examples.
pub open spec fn group_section(group: (String, RuleAggregate)) -> Seq<Seq<char>> {
    seq![group_line(group.0@, group.1.total_bytes, group.1.count as nat)] + example_lines(
        texts(group.1.examples@),
        shown_count(group.1.examples@.len()),
    )
}

/// The lines of the first `n` groups.
pub open spec fn group_sections(groups: Seq<(String, RuleAggregate)>, n: int) -> Seq<Seq<char>>
    decreases n,
{
    if n <= 0 {
        Seq::empty()
    } else {
        group_sections(groups, n - 1) + group_section(groups[n - 1])
    }
}

/// Everything a scan prints, line by line.
pub open spec fn scan_lines(
    root: Seq<char>,
    groups: Seq<(String, RuleAggregate)>,
    total: u64,
) -> Seq<Seq<char>> {
    seq![scan_heading(root), scan_summary(total, groups.len())] + group_sections(
        groups,
        groups.len() as int,
    )
}

/// Writes out what a scan prints.
pub fn render_scan(root: &str, groups: &Vec<(String, RuleAggregate)>, total: u64) -> (lines: Vec<
    String,
>)
    ensures
        texts(lines@) == scan_lines(root@, groups@, total),
{
    let mut lines: Vec<String> = Vec::new();
    let mut heading: String = "Scanning ".to_owned();
    heading.append(root);
    lines.push(heading);
    let mut summary: String = "Found total ".to_owned();
    summary.append(format_bytes(total).as_str());
    summary.append(" across ");
    summary.append(decimal(groups.len() as u64).as_str());
    summary.append(" matched groups");
    lines.push(summary);
    let ghost head = seq![scan_heading(root@), scan_summary(total, groups@.len())];
    assert(texts(lines@) =~= head + group_sections(groups@, 0));
    let mut i: usize = 0;
    while i < groups.len()
        invariant
            i <= groups@.len(),
            texts(lines@) == head + group_sections(groups@, i as int),
        decreases groups@.len() - i,
    {
        let group = &groups[i];
        let ghost before = texts(lines@);
        let mut line: String = "- ".to_owned();
        line.append(group.0.as_str());
        line.append(": ");
        line.append(format_bytes(group.1.total_bytes).as_str());
        line.append(" in ");
        line.append(decimal(group.1.count as u64).as_str());
        line.append(" items");
        lines.push(line);
        let ghost own = seq![group_line(group.0@, group.1.total_bytes, group.1.count as nat)];
        let ghost examples = texts(group.1.examples@);
        assert(texts(lines@) =~= before + own + example_lines(examples, 0));
        let mut k: usize = 0;
        while k < group.1.examples.len() && k < SHOWN_EXAMPLES
            invariant
                k <= group.1.examples@.len(),
                k <= SHOWN_EXAMPLES,
                examples == texts(group.1.examples@),
                texts(lines@) == before + own + example_lines(examples, k as nat),
            decreases group.1.examples@.len() - k,
        {
            let ghost above = texts(lines@);
            let mut example: String = "  example: ".to_owned();
            example.append(group.1.examples[k].as_str());
            lines.push(example);
            proof {
                assert(texts(lines@) =~= above.push(example_line(examples[k as int])));
                assert(example_lines(examples, (k + 1) as nat) =~= example_lines(
                    examples,
                    k as nat,
                ).push(example_line(examples[k as int])));
            }
            k = k + 1;
        }
        proof {
            assert(k == shown_count(group.1.examples@.len()));
            assert(texts(lines@) =~= head + (group_sections(groups@, i as int) + group_section(
                groups@[i as int],
            )));
        }
        i = i + 1;
    }
    lines
}

/// First line of a suggestion.
pub open spec fn suggest_heading(root: Seq<char>) -> Seq<char> {
    "Suggestions for "@ + root
}

/// The line of one group of a suggestion.
pub open spec fn suggestion_line(s: SuggestionView) -> Seq<char> {
    "- "@ + s.group + " -> "@ + size_text(s.total_bytes) + " ("@ + decimal_digits(s.count as nat)
        + " items) | safety: "@ + decimal_digits(s.safety as nat) + "%"@
}

/// The line above the hints of a suggestion.
pub open spec fn hints_heading() -> Seq<char> {
    "\n.gitignore hints (add to your repo root):"@
}

/// The line of one hint of a suggestion.
pub open spec fn hint_line(hint: Seq<char>, places: nat) -> Seq<char> {
    "  "@ + hint + "  # seen in "@ + decimal_digits(places) + " places"@
}

/// Last line of a suggestion.
pub open spec fn suggest_closing() -> Seq<char> {
    "\nHint: review safety score; items like node_modules, dist, target are safe to delete."@
}

/// The lines of the hints of a suggestion: none where there is no hint, else
/// a heading and a line for each.
pub open spec fn hint_section(hints: Seq<(String, usize)>) -> Seq<Seq<char>> {
    if hints.len() == 0 {
        Seq::empty()
    } else {
        seq![hints_heading()] + Seq::new(
            hints.len(),
            |i: int| hint_line(hints[i].0@, hints[i].1 as nat),
        )
    }
}

/// Everything a suggestion prints, line by line.
pub open spec fn suggest_lines(
    root: Seq<char>,
    suggestions: Seq<Suggestion>,
    hints: Seq<(String, usize)>,
) -> Seq<Seq<char>> {
    seq![suggest_heading(root)] + Seq::new(
        suggestions.len(),
        |i: int| suggestion_line(suggestions[i]@),
    ) + hint_section(hints) + seq![suggest_closing()]
}

/// Writes out what a suggestion prints.
pub fn render_suggest(root: &str, suggestions: &Vec<Suggestion>, hints: &Vec<(String, usize)>) -> (lines:
    Vec<String>)
    ensures
        texts(lines@) == suggest_lines(root@, suggestions@, hints@),
{
    let mut lines: Vec<String> = Vec::new();
    let mut heading: String = "Suggestions for ".to_owned();
    heading.append(root);
    lines.push(heading);
    let ghost head = seq![suggest_heading(root@)];
    let ghost all = Seq::new(suggestions@.len(), |i: int| suggestion_line(suggestions@[i]@));
    assert(texts(lines@) =~= head + all.take(0));
    let mut i: usize = 0;
    while i < suggestions.len()
        invariant
            i <= suggestions@.len(),
            all == Seq::new(suggestions@.len(), |i: int| suggestion_line(suggestions@[i]@)),
            texts(lines@) == head + all.take(i as int),
        decreases suggestions@.len() - i,
    {
        let s = &suggestions[i];
        let ghost above = texts(lines@);
        let mut line: String = "- ".to_owned();
        line.append(s.group.as_str());
        line.append(" -> ");
        line.append(format_bytes(s.total_bytes).as_str());
        line.append(" (");
        line.append(decimal(s.count as u64).as_str());
        line.append(" items) | safety: ");
        line.append(decimal(s.safety as u64).as_str());
        line.append("%");
        lines.push(line);
        proof {
            assert(texts(lines@) =~= above.push(suggestion_line(s@)));
            assert(all.take(i + 1) =~= all.take(i as int).push(suggestion_line(s@)));
        }
        i = i + 1;
    }
    assert(all.take(i as int) =~= all);
    let ghost body = texts(lines@);
    if hints.len() > 0 {
        lines.push("\n.gitignore hints (add to your repo root):".to_owned());
        let ghost listed = Seq::new(hints@.len(), |i: int| hint_line(hints@[i].0@, hints@[i].1 as nat));
        assert(texts(lines@) =~= body + seq![hints_heading()] + listed.take(0));
        let mut k: usize = 0;
        while k < hints.len()
            invariant
                k <= hints@.len(),
                listed == Seq::new(
                    hints@.len(),
                    |i: int| hint_line(hints@[i].0@, hints@[i].1 as nat),
                ),
                texts(lines@) == body + seq![hints_heading()] + listed.take(k as int),
            decreases hints@.len() - k,
        {
            let hint = &hints[k];
            let ghost above = texts(lines@);
            let mut line: String = "  ".to_owned();
            line.append(hint.0.as_str());
            line.append("  # seen in ");
            line.append(decimal(hint.1 as u64).as_str());
            line.append(" places");
            lines.push(line);
            proof {
                assert(texts(lines@) =~= above.push(hint_line(hint.0@, hint.1 as nat)));
                assert(listed.take(k + 1) =~= listed.take(k as int).push(
                    hint_line(hint.0@, hint.1 as nat),
                ));
            }
            k = k + 1;
        }
        assert(listed.take(k as int) =~= listed);
        assert(texts(lines@) =~= body + hint_section(hints@));
    } else {
        assert(texts(lines@) =~= body + hint_section(hints@));
    }
    let ghost above = texts(lines@);
    lines.push(
        "\nHint: review safety score; items like node_modules, dist, target are safe to delete.".to_owned(),
    );
    assert(texts(lines@) =~= above.push(suggest_closing()));
    lines
}

/// What is printed where no group has a hint.
pub open spec fn no_hints_line() -> Seq<char> {
    "No .gitignore hints found."@
}

/// The line above the preview of a dry run.
pub open spec fn preview_heading(target: Seq<char>) -> Seq<char> {
    "Would append to "@ + target + ":\n"@
}

/// The line that reports what was written.
pub open spec fn appended_line(hints: nat, target: Seq<char>) -> Seq<char> {
    "Appended "@ + decimal_digits(hints) + " patterns to "@ + target
}

/// Everything that ignore-file generation prints for an action, where
/// `target` is the path of the ignore file.
pub open spec fn gen_ignore_lines(action: IgnoreActionView, target: Seq<char>) -> Seq<Seq<char>> {
    match action {
        IgnoreActionView::Nothing => seq![no_hints_line()],
        IgnoreActionView::Preview { hints } => seq![preview_heading(target)] + hints,
        IgnoreActionView::Append { hints, .. } => seq![appended_line(hints.len(), target)],
        IgnoreActionView::Create { hints, .. } => seq![appended_line(hints.len(), target)],
    }
}

fn appended(hints: &Vec<String>, target: &str) -> (line: String)
    ensures
        line@ == appended_line(hints@.len(), target@),
{
    let mut line: String = "Appended ".to_owned();
    line.append(decimal(hints.len() as u64).as_str());
    line.append(" patterns to ");
    line.append(target);
    line
}

/// Writes out what ignore-file generation prints for an action.
pub fn render_gen_ignore(action: &IgnoreAction, target: &str) -> (lines: Vec<String>)
    ensures
        texts(lines@) == gen_ignore_lines(action@, target@),
{
    let mut lines: Vec<String> = Vec::new();
    match action {
        IgnoreAction::Nothing => {
            lines.push("No .gitignore hints found.".to_owned());
            assert(texts(lines@) =~= seq![no_hints_line()]);
        },
        IgnoreAction::Preview { hints } => {
            let mut heading: String = "Would append to ".to_owned();
            heading.append(target);
            heading.append(":\n");
            lines.push(heading);
            let ghost head = seq![preview_heading(target@)];
            assert(texts(lines@) =~= head + texts(hints@).take(0));
            let mut i: usize = 0;
            while i < hints.len()
                invariant
                    i <= hints@.len(),
                    texts(lines@) == head + texts(hints@).take(i as int),
                decreases hints@.len() - i,
            {
                let ghost above = texts(lines@);
                lines.push(hints[i].clone());
                proof {
                    assert(texts(lines@) =~= above.push(hints@[i as int]@));
                    assert(texts(hints@).take(i + 1) =~= texts(hints@).take(i as int).push(
                        hints@[i as int]@,
                    ));
                }
                i = i + 1;
            }
            assert(texts(hints@).take(i as int) =~= texts(hints@));
        },
        IgnoreAction::Append { hints, .. } => {
            lines.push(appended(hints, target));
            assert(texts(lines@) =~= seq![appended_line(hints@.len(), target@)]);
        },
        IgnoreAction::Create { hints, .. } => {
            lines.push(appended(hints, target));
            assert(texts(lines@) =~= seq![appended_line(hints@.len(), target@)]);
        },
    }
    lines
}

/// The line printed for an entry that a cleaning run handled.
pub open spec fn clean_line(action: CleanAction, rel: Seq<char>) -> Seq<char> {
    match action {
        CleanAction::WouldDelete { bytes } => "Would delete "@ + rel + " ("@ + size_text(bytes)
            + ")."@,
        CleanAction::Delete { bytes } => "Deleted "@ + rel + " ("@ + size_text(bytes) + ")."@,
    }
}

/// Writes out the line for an entry that a cleaning run handled.
pub fn render_clean_action(action: &CleanAction, rel: &str) -> (line: String)
    ensures
        line@ == clean_line(*action, rel@),
{
    match action {
        CleanAction::WouldDelete { bytes } => {
            let mut line: String = "Would delete ".to_owned();
            line.append(rel);
            line.append(" (");
            line.append(format_bytes(*bytes).as_str());
            line.append(").");
            line
        },
        CleanAction::Delete { bytes } => {
            let mut line: String = "Deleted ".to_owned();
            line.append(rel);
            line.append(" (");
            line.append(format_bytes(*bytes).as_str());
            line.append(").");
            line
        },
    }
}

/// The last line of a cleaning run.
pub open spec fn clean_summary(dry_run: bool, bytes: u64, items: nat) -> Seq<char> {
    if dry_run {
        "Dry run complete. Would reclaim "@ + size_text(bytes) + " across "@ + decimal_digits(
            items,
        ) + " items."@
    } else {
        "Cleanup complete. Reclaimed "@ + size_text(bytes) + " across "@ + decimal_digits(items)
            + " items."@
    }
}

/// Writes out the last line of a cleaning run.
pub fn render_clean_summary(dry_run: bool, bytes: u64, items: usize) -> (line: String)
    ensures
        line@ == clean_summary(dry_run, bytes, items as nat),
{
    let mut line: String = if dry_run {
        "Dry run complete. Would reclaim ".to_owned()
    } else {
        "Cleanup complete. Reclaimed ".to_owned()
    };
    line.append(format_bytes(bytes).as_str());
    line.append(" across ");
    line.append(decimal(items as u64).as_str());
    line.append(" items.");
    line
}

/// Title of a report.
pub open spec fn report_title() -> Seq<char> {
    "# DevSpace Sweeper Report"@
}

/// The line of a report that names its root; a blank line follows it.
pub open spec fn report_root_line(root: Seq<char>) -> Seq<char> {
    "Root: "@ + root + "\n"@
}

/// The line of one finding of a report.
pub open spec fn finding_line(item: MatchView) -> Seq<char> {
    "- "@ + item.path + " ("@ + size_text(item.bytes) + ")"@
}

/// The last line of a report; a blank line stands before it.
pub open spec fn report_total_line(total: u64) -> Seq<char> {
    "\nTotal identifiable size: "@ + size_text(total)
}

/// The lines of a report.
pub open spec fn report_lines(root: Seq<char>, matches: Seq<MatchInfo>, total: u64) -> Seq<
    Seq<char>,
> {
    seq![report_title(), report_root_line(root)] + Seq::new(
        matches.len(),
        |i: int| finding_line(matches[i]@),
    ) + seq![report_total_line(total)]
}

/// Lines put together with a line break between each two.
pub open spec fn joined(lines: Seq<Seq<char>>) -> Seq<char>
    decreases lines.len(),
{
    if lines.len() == 0 {
        Seq::empty()
    } else if lines.len() == 1 {
        lines[0]
    } else {
        joined(lines.drop_last()) + "\n"@ + lines.last()
    }
}

/// Puts lines together with a line break between each two.
pub fn join_lines(lines: &Vec<String>) -> (text: String)
    ensures
        text@ == joined(texts(lines@)),
{
    let mut text: String = String::new();
    let ghost all = texts(lines@);
    let mut i: usize = 0;
    assert(all.take(0) =~= Seq::<Seq<char>>::empty());
    while i < lines.len()
        invariant
            i <= lines@.len(),
            all == texts(lines@),
            text@ == joined(all.take(i as int)),
        decreases lines@.len() - i,
    {
        proof {
            let next = all.take(i + 1);
            assert(next.drop_last() =~= all.take(i as int));
            assert(next.last() == lines@[i as int]@);
            if i == 0 {
                assert(next[0] == lines@[0]@);
                assert(Seq::<char>::empty() + lines@[0]@ =~= lines@[0]@);
            }
        }
        if i > 0 {
            text.append("\n");
        }
        text.append(lines[i].as_str());
        i = i + 1;
    }
    assert(all.take(i as int) =~= all);
    text
}

/// Writes out the lines of a report.
pub fn render_report_lines(root: &str, matches: &Vec<MatchInfo>, total: u64) -> (lines: Vec<String>)
    ensures
        texts(lines@) == report_lines(root@, matches@, total),
{
    let mut lines: Vec<String> = Vec::new();
    lines.push("# DevSpace Sweeper Report".to_owned());
    let mut root_line: String = "Root: ".to_owned();
    root_line.append(root);
    root_line.append("\n");
    lines.push(root_line);
    let ghost head = seq![report_title(), report_root_line(root@)];
    let ghost all = Seq::new(matches@.len(), |i: int| finding_line(matches@[i]@));
    assert(texts(lines@) =~= head + all.take(0));
    let mut i: usize = 0;
    while i < matches.len()
        invariant
            i <= matches@.len(),
            all == Seq::new(matches@.len(), |i: int| finding_line(matches@[i]@)),
            texts(lines@) == head + all.take(i as int),
        decreases matches@.len() - i,
    {
        let item = &matches[i];
        let ghost above = texts(lines@);
        let mut line: String = "- ".to_owned();
        line.append(item.path.as_str());
        line.append(" (");
        line.append(format_bytes(item.bytes).as_str());
        line.append(")");
        lines.push(line);
        proof {
            assert(texts(lines@) =~= above.push(finding_line(item@)));
            assert(all.take(i + 1) =~= all.take(i as int).push(finding_line(item@)));
        }
        i = i + 1;
    }
    assert(all.take(i as int) =~= all);
    let ghost above = texts(lines@);
    let mut last: String = "\nTotal identifiable size: ".to_owned();
    last.append(format_bytes(total).as_str());
    lines.push(last);
    assert(texts(lines@) =~= above.push(report_total_line(total)));
    lines
}

/// Writes out the text of a report: its lines, a line break between each
/// two.
pub fn render_report(root: &str, matches: &Vec<MatchInfo>, total: u64) -> (text: String)
    ensures
        text@ == joined(report_lines(root@, matches@, total)),
{
    let lines = render_report_lines(root, matches, total);
    join_lines(&lines)
}

/// What is printed once a report is written to `output`.
pub open spec fn report_written_line(output: Seq<char>) -> Seq<char> {
    "Report written to "@ + output
}

/// Writes out what is printed once a report is written.
pub fn render_report_written(output: &str) -> (line: String)
    ensures
        line@ == report_written_line(output@),
{
    let mut line: String = "Report written to ".to_owned();
    line.append(output);
    line
}

} // verus!
