//! What a line of a rule dump says: the model of the line reader.
//!
//! A line is a row of flag groups. A group is a name behind one or two dashes and the
//! words that follow it; a `!` standing alone before a group negates it.

use crate::rule::{Archive, FlagView, InterfaceView, RuleView};
use vstd::prelude::*;

verus! {

/// What the line reader is waiting for.
#[derive(Debug, Clone, Copy, PartialEq, Eq, Structural)]
pub enum Phase {
    /// Between words, after a group's first word or before any group: a dash starts a
    /// group, any other word is one more word of the group that is open.
    Idle,
    /// Just behind the dash that started a group: a second dash belongs to it.
    Dash,
    /// In the name of a group.
    Name,
    /// Behind the name of a group, before its first word.
    Gap,
    /// In the first word of a group, where dashes and `!` are ordinary characters.
    Value,
}

/// Where the line reader stands after some prefix of the line.
pub struct Scanner {
    /// What it is waiting for.
    pub phase: Phase,
    /// Whether a double quote is open, so that a space is an ordinary character.
    pub multi: bool,
    /// Whether a `!` waits for the group that it negates.
    pub negate: bool,
    /// Whether `group` has been started and not yet handed over.
    pub open: bool,
    /// The characters of the word that is being read.
    pub word: Seq<char>,
    /// The group that is being read.
    pub group: FlagView,
    /// The groups that are complete, first one first.
    pub groups: Seq<FlagView>,
}

/// A group with no name, no words and no negation.
pub open spec fn no_flag() -> FlagView {
    FlagView { name: Seq::empty(), values: Seq::empty(), negate: false }
}

/// The reader before any character.
pub open spec fn scan_start() -> Scanner {
    Scanner {
        phase: Phase::Idle,
        multi: false,
        negate: false,
        open: false,
        word: Seq::empty(),
        group: no_flag(),
        groups: Seq::empty(),
    }
}

/// The word that is being read comes to its end: a name becomes the name of the group, a
/// first word becomes a word of it even if it is empty, a later word only if it is not.
/// A later word that no group precedes starts a group without a name.
pub open spec fn settle(s: Scanner) -> Scanner {
    match s.phase {
        Phase::Idle => if s.word.len() > 0 {
            Scanner {
                group: FlagView { values: s.group.values.push(s.word), ..s.group },
                open: true,
                word: Seq::empty(),
                ..s
            }
        } else {
            s
        },
        Phase::Dash | Phase::Name => Scanner {
            group: FlagView { name: s.word, ..s.group },
            word: Seq::empty(),
            ..s
        },
        Phase::Gap => s,
        Phase::Value => Scanner {
            group: FlagView { values: s.group.values.push(s.word), ..s.group },
            word: Seq::empty(),
            ..s
        },
    }
}

/// The group that is being read, if one was started, joins the complete ones.
pub open spec fn emit(s: Scanner) -> Scanner {
    Scanner {
        groups: if s.open {
            s.groups.push(s.group)
        } else {
            s.groups
        },
        group: no_flag(),
        open: false,
        ..s
    }
}

/// A dash where a name is awaited or read: what was read so far is complete, and a new
/// group starts, negated if a `!` was waiting.
pub open spec fn begin(s: Scanner) -> Scanner {
    let e = emit(settle(s));
    Scanner {
        group: FlagView { negate: e.negate, ..no_flag() },
        negate: false,
        open: true,
        phase: Phase::Dash,
        ..e
    }
}

/// A `!` where a name is awaited or read: what was read so far is complete, and the next
/// group that starts will be negated.
pub open spec fn negation(s: Scanner) -> Scanner {
    let e = emit(settle(s));
    Scanner { negate: true, phase: Phase::Idle, ..e }
}

/// A space outside quotes: the word that is being read comes to its end. Behind a name
/// the first word is awaited; behind a word, the next group.
pub open spec fn delimit(s: Scanner) -> Scanner {
    let t = settle(s);
    Scanner {
        phase: match s.phase {
            Phase::Dash | Phase::Name | Phase::Gap => Phase::Gap,
            Phase::Idle | Phase::Value => Phase::Idle,
        },
        ..t
    }
}

/// The phase once a word has started in phase `p`.
pub open spec fn in_word(p: Phase) -> Phase {
    match p {
        Phase::Dash => Phase::Name,
        Phase::Gap => Phase::Value,
        _ => p,
    }
}

/// One character further.
///
/// A double quote opens or closes a region in which spaces are ordinary; it starts a
/// word but is no part of it. A space outside such a region ends the word. A dash is
/// ordinary in a group's first word and only there: elsewhere it starts a group, or is
/// the second of the two dashes that may do so. A `!` is ordinary in a group's first word
/// and only there: elsewhere it negates the group that comes next. Every other
/// character joins the word.
pub open spec fn scan_step(s: Scanner, c: char) -> Scanner {
    if c == '"' {
        Scanner { multi: !s.multi, phase: in_word(s.phase), ..s }
    } else if c == ' ' && !s.multi {
        delimit(s)
    } else if c == '-' && (s.phase is Idle || s.phase is Name) {
        begin(s)
    } else if c == '-' && s.phase is Dash {
        Scanner { phase: Phase::Name, ..s }
    } else if c == '!' && (s.phase is Idle || s.phase is Dash || s.phase is Name) {
        negation(s)
    } else {
        Scanner { word: s.word.push(c), phase: in_word(s.phase), ..s }
    }
}

/// The reader after all of `text`, entered at `from`.
pub open spec fn scan_run(from: Scanner, text: Seq<char>) -> Scanner
    decreases text.len(),
{
    if text.len() == 0 {
        from
    } else {
        scan_step(scan_run(from, text.drop_last()), text.last())
    }
}

/// Reading one character more of a line is one step.
pub proof fn lemma_scan_run_next(text: Seq<char>, at: int)
    requires
        0 <= at < text.len(),
    ensures
        scan_run(scan_start(), text.take(at + 1)) == scan_step(
            scan_run(scan_start(), text.take(at)),
            text[at],
        ),
{
    assert(text.take(at + 1).drop_last() =~= text.take(at));
}

/// The flag groups of a line: the end of the line ends the word and the group that are
/// being read.
pub open spec fn flags_of(text: Seq<char>) -> Seq<FlagView> {
    emit(settle(scan_run(scan_start(), text))).groups
}

/// What a group of this name declares the line to be, if anything.
pub open spec fn directive(name: Seq<char>) -> Option<Archive> {
    if name == "A"@ {
        Some(Archive::Append)
    } else if name == "P"@ {
        Some(Archive::Policy)
    } else if name == "N"@ {
        Some(Archive::NewChain)
    } else {
        None
    }
}

/// How many words a group of this name must have.
pub open spec fn words_needed(name: Seq<char>) -> nat {
    if name == "A"@ || name == "N"@ {
        1
    } else if name == "P"@ {
        2
    } else if name == "i"@ || name == "o"@ || name == "p"@ || name == "sport"@ || name
        == "dport"@ || name == "j"@ {
        1
    } else {
        0
    }
}

/// Whether the groups make a rule: the first one declares what the line is, and each one
/// has the words that its name asks for.
pub open spec fn flags_ok(flags: Seq<FlagView>) -> bool {
    &&& flags.len() > 0
    &&& directive(flags[0].name) is Some
    &&& forall|k: int|
        0 <= k < flags.len() ==> (#[trigger] flags[k]).values.len() >= words_needed(
            flags[k].name,
        )
}

/// The rule of a line before any of its groups is read.
pub open spec fn blank_rule(table: Seq<char>, text: Seq<char>, archive: Archive) -> RuleView {
    RuleView {
        origin: text,
        table: table,
        archive: archive,
        chain: Seq::empty(),
        input: None,
        output: None,
        protocol: Seq::empty(),
        sport: Seq::empty(),
        dport: Seq::empty(),
        jump: Seq::empty(),
        extensions: Seq::empty(),
    }
}

/// What one group does to the rule. A name that says nothing here is kept among the
/// extensions. What the line is was settled by its first group and is left alone.
pub open spec fn apply_flag(rule: RuleView, flag: FlagView) -> RuleView {
    if flag.name == "A"@ || flag.name == "N"@ {
        RuleView { chain: flag.values[0], ..rule }
    } else if flag.name == "P"@ {
        RuleView { chain: flag.values[0], jump: flag.values[1], ..rule }
    } else if flag.name == "i"@ {
        RuleView {
            input: Some(InterfaceView { negate: flag.negate, value: flag.values[0] }),
            ..rule
        }
    } else if flag.name == "o"@ {
        RuleView {
            output: Some(InterfaceView { negate: flag.negate, value: flag.values[0] }),
            ..rule
        }
    } else if flag.name == "p"@ {
        RuleView { protocol: flag.values[0], ..rule }
    } else if flag.name == "sport"@ {
        RuleView { sport: flag.values[0], ..rule }
    } else if flag.name == "dport"@ {
        RuleView { dport: flag.values[0], ..rule }
    } else if flag.name == "j"@ {
        RuleView { jump: flag.values[0], ..rule }
    } else {
        RuleView { extensions: rule.extensions.push(flag), ..rule }
    }
}

/// What the groups do to the rule, one after the other: of two that set the same field
/// the later one wins.
pub open spec fn apply_flags(rule: RuleView, flags: Seq<FlagView>) -> RuleView
    decreases flags.len(),
{
    if flags.len() == 0 {
        rule
    } else {
        apply_flag(apply_flags(rule, flags.drop_last()), flags.last())
    }
}

/// The rule that a line of the dump of `table` gives, if the line is a rule.
pub open spec fn rule_of(table: Seq<char>, text: Seq<char>) -> Option<RuleView> {
    let flags = flags_of(text);
    if flags_ok(flags) {
        Some(apply_flags(blank_rule(table, text, directive(flags[0].name)->0), flags))
    } else {
        None
    }
}

/// Where the reader of a whole dump stands after some prefix of it.
pub struct Lines {
    /// The lines that a line break has ended, first one first.
    pub done: Seq<Seq<char>>,
    /// The characters of the line that is being read.
    pub line: Seq<char>,
}

/// The reader of a dump before any character.
pub open spec fn lines_start() -> Lines {
    Lines { done: Seq::empty(), line: Seq::empty() }
}

/// One character further: a line break ends the line, every other character joins it.
pub open spec fn lines_step(s: Lines, c: char) -> Lines {
    if c == '\n' {
        Lines { done: s.done.push(s.line), line: Seq::empty() }
    } else {
        Lines { line: s.line.push(c), ..s }
    }
}

/// The reader of a dump after all of `text`.
pub open spec fn lines_run(text: Seq<char>) -> Lines
    decreases text.len(),
{
    if text.len() == 0 {
        lines_start()
    } else {
        lines_step(lines_run(text.drop_last()), text.last())
    }
}

/// The lines of a dump that are read as rules: each one that a line break ends, empty
/// or not, and what follows the last line break unless that is empty.
pub open spec fn lines_of(text: Seq<char>) -> Seq<Seq<char>> {
    let s = lines_run(text);
    if s.line.len() > 0 {
        s.done.push(s.line)
    } else {
        s.done
    }
}

/// The rules of the lines, in their order, or the first line that is no rule.
pub open spec fn rules_of_lines(table: Seq<char>, lines: Seq<Seq<char>>) -> Result<
    Seq<RuleView>,
    Seq<char>,
>
    decreases lines.len(),
{
    if lines.len() == 0 {
        Ok(Seq::empty())
    } else {
        match rules_of_lines(table, lines.drop_last()) {
            Err(line) => Err(line),
            Ok(rules) => match rule_of(table, lines.last()) {
                Some(rule) => Ok(rules.push(rule)),
                None => Err(lines.last()),
            },
        }
    }
}

/// The rules of a dump of `table`, or the first of its lines that is no rule.
pub open spec fn rules_of(table: Seq<char>, text: Seq<char>) -> Result<Seq<RuleView>, Seq<char>> {
    rules_of_lines(table, lines_of(text))
}

/// Whether a group of this name says something about the rule, so that it is not kept
/// among the extensions.
pub open spec fn known_flag(name: Seq<char>) -> bool {
    name == "A"@ || name == "N"@ || name == "P"@ || name == "i"@ || name == "o"@ || name
        == "p"@ || name == "sport"@ || name == "dport"@ || name == "j"@
}

/// The groups that say nothing about the rule, in their order.
pub open spec fn unknown_flags(flags: Seq<FlagView>) -> Seq<FlagView> {
    flags.filter(|flag: FlagView| !known_flag(flag.name))
}

/// No group changes what the line is, where it was read or what it read; and the groups
/// that say nothing else are added to the extensions, each one, in their order.
pub proof fn lemma_apply_flags_keeps(rule: RuleView, flags: Seq<FlagView>)
    ensures
        apply_flags(rule, flags).archive == rule.archive,
        apply_flags(rule, flags).origin == rule.origin,
        apply_flags(rule, flags).table == rule.table,
        apply_flags(rule, flags).extensions == rule.extensions + unknown_flags(flags),
    decreases flags.len(),
{
    if flags.len() == 0 {
        reveal_with_fuel(Seq::filter, 1);
        assert(rule.extensions + unknown_flags(flags) =~= rule.extensions);
    } else {
        lemma_apply_flags_keeps(rule, flags.drop_last());
        let kept = unknown_flags(flags.drop_last());
        reveal_with_fuel(Seq::filter, 2);
        if known_flag(flags.last().name) {
            assert(unknown_flags(flags) == kept);
        } else {
            assert(unknown_flags(flags) == kept.push(flags.last()));
            assert((rule.extensions + kept).push(flags.last()) =~= rule.extensions
                + kept.push(flags.last()));
        }
    }
}

/// Of a line that is a rule: its first group, and no other, says what the line is; the
/// rule keeps the line and the table as they were given; and its extensions are the
/// groups that say nothing else, each one, in the order of the line.
pub proof fn lemma_rule_of_line(table: Seq<char>, text: Seq<char>)
    requires
        rule_of(table, text) is Some,
    ensures
        flags_of(text).len() > 0,
        directive(flags_of(text)[0].name) == Some(rule_of(table, text)->0.archive),
        rule_of(table, text)->0.origin == text,
        rule_of(table, text)->0.table == table,
        rule_of(table, text)->0.extensions == unknown_flags(flags_of(text)),
{
    let flags = flags_of(text);
    let blank = blank_rule(table, text, directive(flags[0].name)->0);
    lemma_apply_flags_keeps(blank, flags);
    assert(blank.extensions + unknown_flags(flags) =~= unknown_flags(flags));
}

/// A run of spaces outside quotes says what one space says.
pub proof fn lemma_space_run_is_one_space(s: Scanner)
    requires
        !s.multi,
    ensures
        scan_step(scan_step(s, ' '), ' ') == scan_step(s, ' '),
{
}

/// Two dashes start a group as one dash does: the second one hands over no group, and
/// whatever follows is read as it would be behind the first.
pub proof fn lemma_second_dash_says_nothing(s: Scanner, c: char)
    requires
        s.phase is Idle || s.phase is Name,
        c != '-',
    ensures
        scan_step(scan_step(s, '-'), '-').groups == scan_step(s, '-').groups,
        scan_step(scan_step(scan_step(s, '-'), '-'), c) == scan_step(scan_step(s, '-'), c),
        emit(settle(scan_step(scan_step(s, '-'), '-'))).groups == emit(
            settle(scan_step(s, '-')),
        ).groups,
{
}

/// A `!` negates the group that starts next and no group after it.
pub proof fn lemma_negation_is_used_once(s: Scanner)
    requires
        s.phase is Idle || s.phase is Dash || s.phase is Name,
    ensures
        scan_step(scan_step(s, '!'), '-').group.negate,
        !scan_step(scan_step(s, '!'), '-').negate,
        !scan_step(scan_step(scan_step(s, '!'), '-'), '!').negate ==> !scan_step(
            scan_step(scan_step(s, '!'), '-'),
            '-',
        ).negate,
{
}

/// A group starts negated only if a `!` was waiting for it.
pub proof fn lemma_group_without_negation(s: Scanner)
    requires
        s.phase is Idle || s.phase is Name,
        !s.negate,
    ensures
        !scan_step(s, '-').group.negate,
{
}

/// The lines that are ended after a prefix of the dump stay what they are.
pub proof fn lemma_lines_done_stay(text: Seq<char>, upto: int, k: int)
    requires
        0 <= upto <= text.len(),
        0 <= k < lines_run(text.take(upto)).done.len(),
    ensures
        k < lines_run(text).done.len(),
        lines_run(text).done[k] == lines_run(text.take(upto)).done[k],
    decreases text.len() - upto,
{
    if upto == text.len() {
        assert(text.take(upto) =~= text);
    } else {
        assert(text.take(upto + 1).drop_last() =~= text.take(upto));
        lemma_lines_done_stay(text, upto + 1, k);
    }
}

/// Once a line is no rule, the lines behind it are not looked at.
pub proof fn lemma_rules_of_lines_failed(table: Seq<char>, lines: Seq<Seq<char>>, n: int)
    requires
        0 <= n <= lines.len(),
        rules_of_lines(table, lines.take(n)) is Err,
    ensures
        rules_of_lines(table, lines) == rules_of_lines(table, lines.take(n)),
    decreases lines.len() - n,
{
    if n == lines.len() {
        assert(lines.take(n) =~= lines);
    } else {
        assert(lines.take(n + 1).drop_last() =~= lines.take(n));
        lemma_rules_of_lines_failed(table, lines, n + 1);
    }
}

/// A dump that is read gives one rule for each of its lines, and each rule is that of its
/// line.
pub proof fn lemma_rules_of_lines_each(table: Seq<char>, lines: Seq<Seq<char>>)
    requires
        rules_of_lines(table, lines) is Ok,
    ensures
        rules_of_lines(table, lines)->Ok_0.len() == lines.len(),
        forall|k: int|
            0 <= k < lines.len() ==> rule_of(table, #[trigger] lines[k]) == Some(
                rules_of_lines(table, lines)->Ok_0[k],
            ),
    decreases lines.len(),
{
    if lines.len() > 0 {
        lemma_rules_of_lines_each(table, lines.drop_last());
        let before = rules_of_lines(table, lines.drop_last())->Ok_0;
        assert forall|k: int| 0 <= k < lines.len() implies rule_of(table, #[trigger] lines[k])
            == Some(rules_of_lines(table, lines)->Ok_0[k]) by {
            if k < lines.len() - 1 {
                assert(lines.drop_last()[k] == lines[k]);
            }
        }
    }
}

/// One line break at the end of a dump changes nothing, unless the dump ends in a line
/// break already or is empty.
pub proof fn lemma_trailing_line_break(table: Seq<char>, text: Seq<char>)
    requires
        text.len() > 0,
        text.last() != '\n',
    ensures
        lines_of(text.push('\n')) == lines_of(text),
        rules_of(table, text.push('\n')) == rules_of(table, text),
{
    assert(text.push('\n').drop_last() =~= text);
}

} // verus!
