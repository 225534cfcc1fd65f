//! The readers of the utility's text: typed rules, version banners and rule dumps.

use crate::banner::{
    all_digits, banner_fields, banner_run, banner_start, digits_value, lemma_banner_run_concat,
    lemma_banner_run_over, lemma_digits_value_prefix, lemma_version_of_bad_field, number_of,
    version_of, Banner,
};
use crate::builder::{builder_chars, builder_clear, builder_push};
use crate::error::{RIPTAnalysisError, RIPTAnalysisResult, RIPTError, RIPTResult};
use crate::flags::{
    apply_flags, blank_rule, delimit, directive, emit, flags_of, in_word, lemma_lines_done_stay,
    lemma_rules_of_lines_failed, lemma_scan_run_next, lines_of, lines_run, no_flag, rule_of,
    rules_of, rules_of_lines, scan_run, scan_start, scan_step, settle, words_needed, Lines,
    Phase, Scanner,
};
use crate::reader::{reader_back, reader_new, reader_position, reader_text, reader_wf};
use crate::rule::{Archive, Extension, FlagView, RIPTInterface, RIPTRule, RuleView};
use crate::tokens::{split_run, split_start, tokens_of, Quoting, Splitter};
use rstring_builder::StringBuilder;
use text_reader::TextReader;
use vstd::prelude::*;

verus! {

/// Splits a rule, as it would be typed on a command line, into the
/// arguments that it stands for.
pub fn split_quoted(text: &str) -> (rets: Vec<String>)
    ensures
        rets.deep_view() == tokens_of(text@),
{
    let mut rets: Vec<String> = Vec::new();
    let mut reader = reader_new(text);
    let mut quoted_p = false;  // "
    let mut quoted_b = false;  // '
    let mut builder = StringBuilder::new();
    assert(text@.take(0) =~= Seq::<char>::empty());
    assert(rets.deep_view() =~= Seq::<Seq<char>>::empty());
    while reader.has_next()
        invariant
            reader_text(reader) == text@,
            reader_wf(reader),
            !(quoted_p && quoted_b),
            split_run(split_start(), text@.take(reader_position(reader) as int)) == (Splitter {
                tokens: rets.deep_view(),
                word: builder_chars(builder),
                quote: if quoted_p {
                    Quoting::Double
                } else if quoted_b {
                    Quoting::Single
                } else {
                    Quoting::Bare
                },
            }),
        decreases reader_text(reader).len() - reader_position(reader),
    {
        let ghost at = reader_position(reader) as int;
        let ghost tokens_before = rets.deep_view();
        assert(text@.take(at + 1).drop_last() =~= text@.take(at));
        match reader.next() {
            Some('"') => {
                if quoted_b {
                    builder_push(&mut builder, '"');
                } else {
                    quoted_p = !quoted_p;
                }
            },
            Some('\'') => {
                if quoted_p {
                    builder_push(&mut builder, '\'');
                } else {
                    quoted_b = !quoted_b;
                }
            },
            Some(' ') => {
                if quoted_p || quoted_b {
                    builder_push(&mut builder, ' ');
                } else {
                    let word = builder.string();
                    rets.push(word);
                    builder_clear(&mut builder);
                    assert(rets.deep_view() =~= tokens_before.push(word@));
                }
            },
            Some(ch) => {
                builder_push(&mut builder, ch);
            },
            None => {},
        }
    }
    assert(text@.take(text@.len() as int) =~= text@);
    if !builder.is_empty() {
        let ghost tokens_before = rets.deep_view();
        let word = builder.string();
        rets.push(word);
        builder_clear(&mut builder);
        assert(rets.deep_view() =~= tokens_before.push(word@));
    }
    rets
}

/// Reads a 32-bit number as it is written in decimal: an optional sign, then digits.
pub fn parse_number(text: &str) -> (number: Option<i32>)
    ensures
        number == number_of(text@),
{
    let mut reader = reader_new(text);
    let mut negative = false;
    let ghost mut start: int = 0;
    match reader.next() {
        None => {
            return None;
        },
        Some(ch) => {
            if ch == '-' {
                negative = true;
                proof {
                    start = 1;
                }
            } else if ch == '+' {
                proof {
                    start = 1;
                }
            } else {
                reader_back(&mut reader);
            }
        },
    }
    let ghost body = text@.skip(start);
    let mut size: i64 = 0;
    let mut seen = false;
    assert(body.take(0) =~= Seq::<char>::empty());
    assert(text@.skip(0) =~= text@);
    while reader.has_next()
        invariant
            reader_text(reader) == text@,
            reader_wf(reader),
            0 <= start <= reader_position(reader),
            text@.len() > 0,
            text@.skip(0) == text@,
            start == if text@[0] == '-' || text@[0] == '+' {
                1int
            } else {
                0int
            },
            negative == (text@[0] == '-'),
            body == text@.skip(start),
            seen == (reader_position(reader) > start),
            all_digits(body.take(reader_position(reader) - start)),
            size == digits_value(body.take(reader_position(reader) - start)),
            0 <= size <= 0x8000_0000,
        decreases reader_text(reader).len() - reader_position(reader),
    {
        let ghost at = reader_position(reader) - start;
        assert(body.take(at + 1).drop_last() =~= body.take(at));
        match reader.next() {
            Some(ch) => {
                assert(ch == body[at]);
                if !(ch >= '0' && ch <= '9') {
                    return None;
                }
                let digit = (ch as u32 - '0' as u32) as i64;
                size = size * 10 + digit;
                seen = true;
                assert(size == digits_value(body.take(at + 1)));
                if size > 0x8000_0000 {
                    proof {
                        lemma_digits_value_prefix(body, at + 1);
                    }
                    return None;
                }
            },
            None => {},
        }
    }
    assert(body.take(body.len() as int) =~= body);
    if !seen {
        None
    } else if negative {
        Some((-size) as i32)
    } else if size <= 0x7fff_ffff {
        Some(size as i32)
    } else {
        None
    }
}

/// Reads the version of the utility from the banner that it prints: exactly three
/// numbers with dots between them, behind the first `v` and before the space that follows.
pub fn iptables_version(text: String) -> (version: RIPTResult<(i32, i32, i32)>)
    ensures
        match version_of(text@) {
            Some(v) => version == Ok::<(i32, i32, i32), RIPTError>(v),
            None => version matches Err(RIPTError::Parse(given)) && given@ == text@,
        },
{
    let mut reader = reader_new(text.as_str());
    let mut version: Vec<i32> = Vec::with_capacity(3);
    let mut builder = StringBuilder::new();
    let mut entry = false;
    let mut over = false;
    let ghost mut fields: Seq<Seq<char>> = Seq::empty();
    assert(text@.take(0) =~= Seq::<char>::empty());
    while !over && reader.has_next()
        invariant
            reader_text(reader) == text@,
            reader_wf(reader),
            banner_run(banner_start(), text@.take(reader_position(reader) as int)) == (Banner {
                entered: entry,
                over: over,
                field: builder_chars(builder),
                fields: fields,
            }),
            version@.len() == fields.len(),
            forall|k: int|
                0 <= k < fields.len() ==> (#[trigger] number_of(fields[k])) == Some(version@[k]),
        decreases reader_text(reader).len() - reader_position(reader),
    {
        let ghost at = reader_position(reader) as int;
        assert(text@.take(at + 1).drop_last() =~= text@.take(at));
        match reader.next() {
            Some('v') => {
                entry = true;
            },
            Some('.') => {
                if entry {
                    let vti = builder.string();
                    match parse_number(vti.as_str()) {
                        Some(vtn) => {
                            version.push(vtn);
                            proof {
                                fields = fields.push(vti@);
                            }
                            builder_clear(&mut builder);
                        },
                        None => {
                            proof {
                                lemma_version_of_bad_field(text@, at + 1, fields.len() as int);
                            }
                            return Err(RIPTError::Parse(text));
                        },
                    }
                }
            },
            Some(' ') => {
                if entry {
                    over = true;
                }
            },
            Some(ch) => {
                if entry {
                    builder_push(&mut builder, ch);
                }
            },
            None => {},
        }
    }
    proof {
        let at = reader_position(reader) as int;
        let here = banner_run(banner_start(), text@.take(at));
        assert(text@.take(at) + text@.skip(at) =~= text@);
        lemma_banner_run_concat(banner_start(), text@.take(at), text@.skip(at));
        if over {
            lemma_banner_run_over(here, text@.skip(at));
        } else {
            assert(text@.skip(at) =~= Seq::<char>::empty());
        }
        assert(banner_fields(text@) == fields.push(builder_chars(builder)));
    }
    let vti = builder.string();
    match parse_number(vti.as_str()) {
        Some(vtn) => {
            version.push(vtn);
        },
        None => {
            assert(number_of(banner_fields(text@)[fields.len() as int]) is None);
            return Err(RIPTError::Parse(text));
        },
    }
    if version.len() != 3 {
        return Err(RIPTError::Parse(text));
    }
    assert(number_of(banner_fields(text@)[0]) == Some(version@[0]));
    assert(number_of(banner_fields(text@)[1]) == Some(version@[1]));
    assert(number_of(banner_fields(text@)[2]) == Some(version@[2]));
    Ok((version[0], version[1], version[2]))
}

/// One flag group of a line while it is read: its name, its words, and whether a `!`
/// stood before it.
#[derive(Debug)]
pub struct IPTRTup {
    /// The name of the flag, without its dashes.
    pub arg: String,
    /// The words that followed the name.
    pub value: Vec<String>,
    /// Whether the group is negated.
    pub negate: bool,
}

impl View for IPTRTup {
    type V = FlagView;

    open spec fn view(&self) -> FlagView {
        FlagView { name: self.arg@, values: self.value.deep_view(), negate: self.negate }
    }
}

impl IPTRTup {
    /// A group with no name, no words and no negation.
    pub fn new() -> (tup: IPTRTup)
        ensures
            tup@ == no_flag(),
    {
        let tup = IPTRTup { arg: String::new(), value: Vec::new(), negate: false };
        assert(tup.value.deep_view() =~= Seq::<Seq<char>>::empty());
        tup
    }

    /// Takes the name, the words and the negation away, and hands the empty group back.
    pub fn clear(&mut self) -> (cleared: &IPTRTup)
        ensures
            final(self)@ == no_flag(),
            cleared@ == no_flag(),
    {
        self.arg = String::new();
        self.value.clear();
        self.negate = false;
        assert(self.value.deep_view() =~= Seq::<Seq<char>>::empty());
        self
    }
}

impl Clone for IPTRTup {
    fn clone(&self) -> (copy: Self)
        ensures
            copy@ == self@,
    {
        let copy = IPTRTup {
            arg: self.arg.clone(),
            value: self.value.clone(),
            negate: self.negate,
        };
        assert(copy.value.deep_view() =~= self.value.deep_view());
        copy
    }
}

/// The groups as plain values.
pub open spec fn groups_view(groups: Seq<IPTRTup>) -> Seq<FlagView> {
    Seq::new(groups.len(), |i: int| groups[i]@)
}

/// The line reader: what it waits for, the word and the group that it is reading, and
/// the groups that are complete.
struct LineScanner {
    phase: Phase,
    multi: bool,
    negate: bool,
    entry: bool,
    builder: StringBuilder,
    iptrtup: IPTRTup,
    psmp: Vec<IPTRTup>,
}

impl View for LineScanner {
    type V = Scanner;

    closed spec fn view(&self) -> Scanner {
        Scanner {
            phase: self.phase,
            multi: self.multi,
            negate: self.negate,
            open: self.entry,
            word: builder_chars(self.builder),
            group: self.iptrtup@,
            groups: groups_view(self.psmp@),
        }
    }
}

/// The phase once a word has started.
fn word_phase(phase: Phase) -> (next: Phase)
    ensures
        next == in_word(phase),
{
    match phase {
        Phase::Dash => Phase::Name,
        Phase::Gap => Phase::Value,
        _ => phase,
    }
}

impl LineScanner {
    fn new() -> (scanner: LineScanner)
        ensures
            scanner@ == scan_start(),
    {
        let scanner = LineScanner {
            phase: Phase::Idle,
            multi: false,
            negate: false,
            entry: false,
            builder: StringBuilder::new(),
            iptrtup: IPTRTup::new(),
            psmp: Vec::new(),
        };
        assert(groups_view(scanner.psmp@) =~= Seq::<FlagView>::empty());
        scanner
    }

    /// Ends the word that is being read.
    fn settle(&mut self)
        ensures
            final(self)@ == settle(old(self)@),
    {
        let ghost words = self.iptrtup.value.deep_view();
        match self.phase {
            Phase::Idle => {
                if !self.builder.is_empty() {
                    let word = self.builder.string();
                    self.iptrtup.value.push(word);
                    self.entry = true;
                    builder_clear(&mut self.builder);
                    assert(self.iptrtup.value.deep_view() =~= words.push(word@));
                }
            },
            Phase::Dash | Phase::Name => {
                self.iptrtup.arg = self.builder.string();
                builder_clear(&mut self.builder);
            },
            Phase::Gap => {},
            Phase::Value => {
                let word = self.builder.string();
                self.iptrtup.value.push(word);
                builder_clear(&mut self.builder);
                assert(self.iptrtup.value.deep_view() =~= words.push(word@));
            },
        }
    }

    /// Hands the group that is being read over to the complete ones.
    fn emit(&mut self)
        ensures
            final(self)@ == emit(old(self)@),
    {
        let ghost groups = groups_view(self.psmp@);
        if self.entry {
            let group = self.iptrtup.clone();
            self.psmp.push(group);
            assert(groups_view(self.psmp@) =~= groups.push(group@));
        }
        let _ = self.iptrtup.clear();
        self.entry = false;
    }

    /// Takes one character of the line.
    fn step(&mut self, ch: char)
        ensures
            final(self)@ == scan_step(old(self)@, ch),
    {
        let phase = self.phase;
        let naming = match phase {
            Phase::Idle | Phase::Name => true,
            _ => false,
        };
        let dashed = match phase {
            Phase::Dash => true,
            _ => false,
        };
        if ch == '"' {
            self.multi = !self.multi;
            self.phase = word_phase(phase);
        } else if ch == ' ' && !self.multi {
            self.settle();
            self.phase = match phase {
                Phase::Dash | Phase::Name | Phase::Gap => Phase::Gap,
                Phase::Idle | Phase::Value => Phase::Idle,
            };
        } else if ch == '-' && naming {
            self.settle();
            self.emit();
            self.iptrtup.negate = self.negate;
            self.negate = false;
            self.entry = true;
            self.phase = Phase::Dash;
        } else if ch == '-' && dashed {
            self.phase = Phase::Name;
        } else if ch == '!' && (naming || dashed) {
            self.settle();
            self.emit();
            self.negate = true;
            self.phase = Phase::Idle;
        } else {
            builder_push(&mut self.builder, ch);
            self.phase = word_phase(phase);
        }
    }

    /// Whether a dash has just started a group.
    fn dashed(&self) -> (yes: bool)
        ensures
            yes == (self@.phase is Dash),
    {
        match self.phase {
            Phase::Dash => true,
            _ => false,
        }
    }

    /// Whether the reader stands between two words outside quotes, so that a space says
    /// nothing there: behind a name, or behind a word with no other word begun.
    fn between(&self) -> (yes: bool)
        ensures
            yes == (!self@.multi && (self@.phase is Gap || (self@.phase is Idle
                && self@.word.len() == 0))),
            yes ==> delimit(self@) == self@,
    {
        let resting = match self.phase {
            Phase::Gap => true,
            Phase::Idle => self.builder.is_empty(),
            _ => false,
        };
        !self.multi && resting
    }

    /// Ends the line and hands out its groups.
    fn finish(self) -> (groups: Vec<IPTRTup>)
        ensures
            groups_view(groups@) == emit(settle(self@)).groups,
    {
        let mut scanner = self;
        scanner.settle();
        scanner.emit();
        scanner.psmp
    }
}

/// Passes over the spaces that follow a space: a run of them is one delimiter. The
/// reader is left before the first character that is no space, or at the end of the
/// text.
fn skip_spaces(reader: &mut TextReader, scanner: &LineScanner)
    requires
        reader_wf(*old(reader)),
        reader_position(*old(reader)) > 0,
        reader_text(*old(reader))[reader_position(*old(reader)) - 1] == ' ',
        delimit(scanner@) == scanner@,
        !scanner@.multi,
        scanner@ == scan_run(
            scan_start(),
            reader_text(*old(reader)).take(reader_position(*old(reader)) as int),
        ),
    ensures
        reader_wf(*final(reader)),
        reader_text(*final(reader)) == reader_text(*old(reader)),
        reader_position(*final(reader)) >= reader_position(*old(reader)),
        forall|k: int|
            reader_position(*old(reader)) <= k < reader_position(*final(reader))
                ==> reader_text(*old(reader))[k] == ' ',
        reader_position(*final(reader)) < reader_text(*old(reader)).len() ==> reader_text(
            *old(reader),
        )[reader_position(*final(reader)) as int] != ' ',
        scanner@ == scan_run(
            scan_start(),
            reader_text(*final(reader)).take(reader_position(*final(reader)) as int),
        ),
{
    let ghost text = reader_text(*reader);
    let mut skipping = true;
    while skipping && reader.has_next()
        invariant
            reader_wf(*reader),
            reader_text(*reader) == text,
            reader_position(*reader) >= reader_position(*old(reader)),
            reader_position(*reader) > 0,
            skipping ==> text[reader_position(*reader) - 1] == ' ',
            forall|k: int|
                reader_position(*old(reader)) <= k < reader_position(*reader) ==> text[k]
                    == ' ',
            !skipping ==> reader_position(*reader) < text.len() && text[reader_position(
                *reader,
            ) as int] != ' ',
            delimit(scanner@) == scanner@,
            !scanner@.multi,
            scanner@ == scan_run(scan_start(), text.take(reader_position(*reader) as int)),
        decreases
                2 * (reader_text(*reader).len() - reader_position(*reader)) + if skipping {
                    1int
                } else {
                    0int
                },
    {
        let ghost at = reader_position(*reader) as int;
        proof {
            lemma_scan_run_next(text, at);
        }
        match reader.next() {
            Some(' ') => {},
            Some(_) => {
                reader_back(reader);
                skipping = false;
            },
            None => {},
        }
    }
}

/// Reads one line of the rule dump of `table`.
///
/// The line is a rule when its first flag group is `-A`, `-P` or `-N` and every group
/// that says something here has the words it needs: one, and two for `-P`.
pub fn parse_line(table: String, text: String) -> (rule: RIPTAnalysisResult<RIPTRule>)
    ensures
        match rule_of(table@, text@) {
            Some(v) => rule is Ok && rule->Ok_0@ == v,
            None => rule matches Err(RIPTAnalysisError::UnexpectedOutput(line)) && line@
                == text@,
        },
{
    let mut reader = reader_new(text.as_str());
    let mut scanner = LineScanner::new();
    assert(text@.take(0) =~= Seq::<char>::empty());
    while reader.has_next()
        invariant
            reader_text(reader) == text@,
            reader_wf(reader),
            scanner@ == scan_run(scan_start(), text@.take(reader_position(reader) as int)),
        decreases reader_text(reader).len() - reader_position(reader),
    {
        let ghost at = reader_position(reader) as int;
        proof {
            lemma_scan_run_next(text@, at);
        }
        match reader.next() {
            Some('-') => {
                scanner.step('-');
                if scanner.dashed() {
                    match reader.next() {
                        Some('-') => {
                            proof {
                                lemma_scan_run_next(text@, at + 1);
                            }
                            scanner.step('-');
                        },
                        Some(_) => {
                            reader_back(&mut reader);
                        },
                        None => {},
                    }
                }
            },
            Some(' ') => {
                scanner.step(' ');
                if scanner.between() {
                    skip_spaces(&mut reader, &scanner);
                }
            },
            Some(ch) => {
                scanner.step(ch);
            },
            None => {},
        }
    }
    assert(text@.take(text@.len() as int) =~= text@);
    let psmp = scanner.finish();
    let ghost flags = groups_view(psmp@);
    assert(flags == flags_of(text@));
    if psmp.len() == 0 {
        return Err(RIPTAnalysisError::UnexpectedOutput(text));
    }
    let archive = if psmp[0].arg.as_str().eq("A") {
        Archive::Append
    } else if psmp[0].arg.as_str().eq("P") {
        Archive::Policy
    } else if psmp[0].arg.as_str().eq("N") {
        Archive::NewChain
    } else {
        assert(directive(flags[0].name) is None);
        return Err(RIPTAnalysisError::UnexpectedOutput(text));
    };
    assert(directive(flags[0].name) == Some(archive));
    let mut rule = RIPTRule {
        origin: text.clone(),
        archive,
        table,
        chain: String::new(),
        input: None,
        output: None,
        protocol: String::new(),
        sport: String::new(),
        dport: String::new(),
        jump: String::new(),
        extensions: Vec::new(),
    };
    assert(rule@.extensions =~= Seq::<FlagView>::empty());
    assert(flags.take(0) =~= Seq::<FlagView>::empty());
    let mut i: usize = 0;
    while i < psmp.len()
        invariant
            0 <= i <= psmp.len(),
            flags == groups_view(psmp@),
            flags == flags_of(text@),
            directive(flags[0].name) == Some(archive),
            psmp.len() > 0,
            forall|k: int|
                0 <= k < i ==> (#[trigger] flags[k]).values.len() >= words_needed(flags[k].name),
            rule@ == apply_flags(blank_rule(table@, text@, archive), flags.take(i as int)),
        decreases psmp.len() - i,
    {
        let item = &psmp[i];
        let name = item.arg.as_str();
        let words = item.value.len();
        let ghost before = rule@;
        let ghost flag = flags[i as int];
        assert(flag == item@);
        assert(flags.take(i + 1).drop_last() =~= flags.take(i as int));
        assert(flags.take(i + 1).last() == flag);
        assert(flag.values.len() == words);
        assert(forall|j: int| 0 <= j < words ==> flag.values[j] == item.value@[j]@);
        if name.eq("A") || name.eq("N") {
            if words < 1 {
                return Err(RIPTAnalysisError::UnexpectedOutput(text));
            }
            rule.chain = item.value[0].clone();
        } else if name.eq("P") {
            if words < 2 {
                return Err(RIPTAnalysisError::UnexpectedOutput(text));
            }
            rule.chain = item.value[0].clone();
            rule.jump = item.value[1].clone();
        } else if name.eq("i") {
            if words < 1 {
                return Err(RIPTAnalysisError::UnexpectedOutput(text));
            }
            rule.input = Some(RIPTInterface { negate: item.negate, value: item.value[0].clone() });
        } else if name.eq("o") {
            if words < 1 {
                return Err(RIPTAnalysisError::UnexpectedOutput(text));
            }
            rule.output = Some(
                RIPTInterface { negate: item.negate, value: item.value[0].clone() },
            );
        } else if name.eq("p") {
            if words < 1 {
                return Err(RIPTAnalysisError::UnexpectedOutput(text));
            }
            rule.protocol = item.value[0].clone();
        } else if name.eq("sport") {
            if words < 1 {
                return Err(RIPTAnalysisError::UnexpectedOutput(text));
            }
            rule.sport = item.value[0].clone();
        } else if name.eq("dport") {
            if words < 1 {
                return Err(RIPTAnalysisError::UnexpectedOutput(text));
            }
            rule.dport = item.value[0].clone();
        } else if name.eq("j") {
            if words < 1 {
                return Err(RIPTAnalysisError::UnexpectedOutput(text));
            }
            rule.jump = item.value[0].clone();
        } else {
            let extension = Extension {
                name: item.arg.clone(),
                values: item.value.clone(),
                negate: item.negate,
            };
            assert(extension.values.deep_view() =~= item.value.deep_view());
            rule.extensions.push(extension);
            assert(rule@.extensions =~= before.extensions.push(flag));
        }
        i = i + 1;
    }
    assert(flags.take(psmp.len() as int) =~= flags);
    Ok(rule)
}

/// The rules as plain values.
pub open spec fn rules_view(rules: Seq<RIPTRule>) -> Seq<RuleView> {
    Seq::new(rules.len(), |i: int| rules[i]@)
}

/// Reads the rule dump of `table`, one rule from each line, in the order of the dump.
///
/// Every line that a line break ends must be a rule, an empty one is none; what follows
/// the last line break is read unless it is empty. Reading stops at the first line that
/// is no rule, and that line is reported.
pub fn parse_rules(table: String, text: String) -> (rules: RIPTAnalysisResult<Vec<RIPTRule>>)
    ensures
        match rules_of(table@, text@) {
            Ok(views) => rules is Ok && rules_view(rules->Ok_0@) == views,
            Err(line) => rules matches Err(RIPTAnalysisError::UnexpectedOutput(given))
                && given@ == line,
        },
{
    let mut rets: Vec<RIPTRule> = Vec::new();
    let mut reader = reader_new(text.as_str());
    let mut builder = StringBuilder::new();
    let ghost mut done: Seq<Seq<char>> = Seq::empty();
    assert(text@.take(0) =~= Seq::<char>::empty());
    assert(rules_view(rets@) =~= Seq::<RuleView>::empty());
    while reader.has_next()
        invariant
            reader_text(reader) == text@,
            reader_wf(reader),
            lines_run(text@.take(reader_position(reader) as int)) == (Lines {
                done: done,
                line: builder_chars(builder),
            }),
            rules_of_lines(table@, done) == Ok::<Seq<RuleView>, Seq<char>>(rules_view(rets@)),
        decreases reader_text(reader).len() - reader_position(reader),
    {
        let ghost at = reader_position(reader) as int;
        let ghost views = rules_view(rets@);
        assert(text@.take(at + 1).drop_last() =~= text@.take(at));
        match reader.next() {
            Some('\n') => {
                let line_text = builder.string();
                let ghost line = line_text@;
                assert(done.push(line).drop_last() =~= done);
                match parse_line(table.clone(), line_text) {
                    Ok(rule) => {
                        rets.push(rule);
                        assert(rules_view(rets@) =~= views.push(rule@));
                    },
                    Err(error) => {
                        proof {
                            let lines = lines_of(text@);
                            let n = done.len() as int + 1;
                            let ended = done.push(line);
                            assert(lines_run(text@.take(at + 1)).done == ended);
                            assert forall|k: int| 0 <= k < n implies k < lines.len() && lines[k]
                                == #[trigger] ended[k] by {
                                lemma_lines_done_stay(text@, at + 1, k);
                            }
                            assert(ended[n - 1] == line);
                            assert(lines.take(n) =~= ended);
                            lemma_rules_of_lines_failed(table@, lines, n);
                        }
                        return Err(error);
                    },
                }
                builder_clear(&mut builder);
                proof {
                    done = done.push(line);
                }
            },
            Some(ch) => {
                builder_push(&mut builder, ch);
            },
            None => {},
        }
    }
    assert(text@.take(text@.len() as int) =~= text@);
    if !builder.is_empty() {
        let ghost views = rules_view(rets@);
        let line_text = builder.string();
        assert(done.push(line_text@).drop_last() =~= done);
        match parse_line(table.clone(), line_text) {
            Ok(rule) => {
                rets.push(rule);
                assert(rules_view(rets@) =~= views.push(rule@));
            },
            Err(error) => {
                return Err(error);
            },
        }
    }
    Ok(rets)
}

} // verus!
