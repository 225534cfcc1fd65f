//! Lines as the utility writes them, and that they are read back as they were meant.

use crate::flags::{
    delimit, emit, flags_of, in_word, no_flag, scan_run, scan_start, scan_step, settle, Phase,
    Scanner,
};
use crate::rule::FlagView;
use vstd::prelude::*;

verus! {

/// A word of a flag group, and whether it is written in double quotes.
pub struct Word {
    /// The characters of the word.
    pub text: Seq<char>,
    /// Whether double quotes stand around them.
    pub quoted: bool,
}

/// A flag group as it is written.
pub struct Group {
    /// Whether a `!` and a space stand before the group.
    pub negate: bool,
    /// Whether two dashes stand before the name, and not one.
    pub double: bool,
    /// The name.
    pub name: Seq<char>,
    /// The words behind the name, each after one space.
    pub words: Seq<Word>,
}

/// The word as it is written.
pub open spec fn word_written(w: Word) -> Seq<char> {
    if w.quoted {
        seq!['"'] + w.text + seq!['"']
    } else {
        w.text
    }
}

/// The words as they are written, a space before each.
pub open spec fn words_written(words: Seq<Word>) -> Seq<char>
    decreases words.len(),
{
    if words.len() == 0 {
        Seq::empty()
    } else {
        words_written(words.drop_last()) + seq![' '] + word_written(words.last())
    }
}

/// What is written before the name of a group.
pub open spec fn group_opening(g: Group) -> Seq<char> {
    if g.negate {
        if g.double {
            seq!['!', ' ', '-', '-']
        } else {
            seq!['!', ' ', '-']
        }
    } else {
        if g.double {
            seq!['-', '-']
        } else {
            seq!['-']
        }
    }
}

/// The group as it is written.
pub open spec fn group_written(g: Group) -> Seq<char> {
    group_opening(g) + g.name + words_written(g.words)
}

/// The groups as they are written, a space between two of them.
pub open spec fn line_written(groups: Seq<Group>) -> Seq<char>
    decreases groups.len(),
{
    if groups.len() == 0 {
        Seq::empty()
    } else if groups.len() == 1 {
        group_written(groups[0])
    } else {
        line_written(groups.drop_last()) + seq![' '] + group_written(groups.last())
    }
}

/// Whether `c` is one of the two characters that mean something before a name.
pub open spec fn is_mark(c: char) -> bool {
    c == '-' || c == '!'
}

/// A name can be written if it is not empty and holds no space, quote, dash or `!`.
pub open spec fn name_ok(name: Seq<char>) -> bool {
    &&& name.len() > 0
    &&& forall|i: int|
        0 <= i < name.len() ==> (#[trigger] name[i]) != ' ' && name[i] != '"' && !is_mark(
            name[i],
        )
}

/// The first word of a group can be written if it holds no double quote and, unless it is
/// written in quotes, no space, and is not empty.
pub open spec fn first_word_ok(w: Word) -> bool {
    &&& w.quoted || w.text.len() > 0
    &&& forall|i: int|
        0 <= i < w.text.len() ==> (#[trigger] w.text[i]) != '"' && (w.quoted || w.text[i]
            != ' ')
}

/// A later word of a group can be written if it is not empty and holds no double quote,
/// dash or `!`, and, unless it is written in quotes, no space.
pub open spec fn later_word_ok(w: Word) -> bool {
    &&& w.text.len() > 0
    &&& forall|i: int|
        0 <= i < w.text.len() ==> (#[trigger] w.text[i]) != '"' && !is_mark(w.text[i]) && (
        w.quoted || w.text[i] != ' ')
}

/// Whether every word of a group can be written in its place.
pub open spec fn words_ok(words: Seq<Word>) -> bool {
    forall|k: int|
        0 <= k < words.len() ==> if k == 0 {
            first_word_ok(#[trigger] words[k])
        } else {
            later_word_ok(#[trigger] words[k])
        }
}

/// Whether a line of these groups can be written: every name and word can, and every
/// group but the last has a word.
pub open spec fn line_ok(groups: Seq<Group>) -> bool {
    forall|k: int|
        0 <= k < groups.len() ==> {
            &&& name_ok((#[trigger] groups[k]).name)
            &&& words_ok(groups[k].words)
            &&& k + 1 < groups.len() ==> groups[k].words.len() > 0
        }
}

/// The characters of each word.
pub open spec fn word_texts(words: Seq<Word>) -> Seq<Seq<char>> {
    Seq::new(words.len(), |i: int| words[i].text)
}

/// What a group is meant to be read as.
pub open spec fn group_read(g: Group) -> FlagView {
    FlagView { name: g.name, values: word_texts(g.words), negate: g.negate }
}

/// What the groups are meant to be read as.
pub open spec fn groups_read(groups: Seq<Group>) -> Seq<FlagView> {
    Seq::new(groups.len(), |i: int| group_read(groups[i]))
}

/// Reading two texts in turn is reading both at once.
pub proof fn lemma_scan_run_concat(from: Scanner, a: Seq<char>, b: Seq<char>)
    ensures
        scan_run(from, a + b) == scan_run(scan_run(from, a), b),
    decreases b.len(),
{
    if b.len() == 0 {
        assert(a + b =~= a);
    } else {
        assert((a + b).drop_last() =~= a + b.drop_last());
        assert((a + b).last() == b.last());
        lemma_scan_run_concat(from, a, b.drop_last());
    }
}

/// Reading one character is one step.
pub proof fn lemma_scan_run_one(from: Scanner, c: char)
    ensures
        scan_run(from, seq![c]) == scan_step(from, c),
{
    assert(seq![c].drop_last() =~= Seq::<char>::empty());
    assert(scan_run(from, seq![c].drop_last()) == from);
}

/// Whether `c`, met in this phase, joins the word that is being read.
spec fn joins(phase: Phase, multi: bool, c: char) -> bool {
    c != '"' && (multi || c != ' ') && (!is_mark(c) || phase is Gap || phase is Value)
}

/// Characters that join the word do nothing else, but for starting it.
proof fn lemma_scan_run_joining(from: Scanner, text: Seq<char>)
    requires
        forall|i: int| 0 <= i < text.len() ==> joins(from.phase, from.multi, #[trigger] text[i]),
    ensures
        scan_run(from, text) == (Scanner {
            word: from.word + text,
            phase: if text.len() > 0 {
                in_word(from.phase)
            } else {
                from.phase
            },
            ..from
        }),
    decreases text.len(),
{
    if text.len() == 0 {
        assert(from.word + text =~= from.word);
    } else {
        let init = text.drop_last();
        assert forall|i: int| 0 <= i < init.len() implies joins(
            from.phase,
            from.multi,
            #[trigger] init[i],
        ) by {
            assert(init[i] == text[i]);
        }
        lemma_scan_run_joining(from, init);
        assert(joins(from.phase, from.multi, text[text.len() - 1]));
        assert((from.word + init).push(text.last()) =~= from.word + text);
    }
}

/// A word that is written where a word is awaited becomes the word that is being read.
proof fn lemma_scan_run_word(from: Scanner, w: Word)
    requires
        !from.multi,
        from.word.len() == 0,
        from.phase is Gap && first_word_ok(w) || from.phase is Idle && later_word_ok(w),
    ensures
        scan_run(from, word_written(w)) == (Scanner {
            word: w.text,
            phase: in_word(from.phase),
            ..from
        }),
{
    assert(from.word + w.text =~= w.text);
    if w.quoted {
        let opened = Scanner { multi: true, phase: in_word(from.phase), ..from };
        lemma_scan_run_concat(from, seq!['"'] + w.text, seq!['"']);
        lemma_scan_run_concat(from, seq!['"'], w.text);
        lemma_scan_run_one(from, '"');
        assert forall|i: int| 0 <= i < w.text.len() implies joins(
            opened.phase,
            opened.multi,
            #[trigger] w.text[i],
        ) by {}
        lemma_scan_run_joining(opened, w.text);
        lemma_scan_run_one(scan_run(opened, w.text), '"');
    } else {
        assert forall|i: int| 0 <= i < w.text.len() implies joins(
            from.phase,
            from.multi,
            #[trigger] w.text[i],
        ) by {}
        lemma_scan_run_joining(from, w.text);
    }
}

/// Where the reader stands in a group of which the name and `upto` words are read, the
/// last of them not yet ended.
spec fn group_state(done: Seq<FlagView>, g: Group, upto: int) -> Scanner {
    let words = g.words.take(upto);
    Scanner {
        phase: if upto == 0 {
            Phase::Name
        } else if upto == 1 {
            Phase::Value
        } else {
            Phase::Idle
        },
        multi: false,
        negate: false,
        open: true,
        word: if upto == 0 {
            g.name
        } else {
            words.last().text
        },
        group: FlagView {
            name: if upto == 0 {
                Seq::empty()
            } else {
                g.name
            },
            values: if upto == 0 {
                Seq::empty()
            } else {
                word_texts(words.drop_last())
            },
            negate: g.negate,
        },
        groups: done,
    }
}

/// Behind the name of a group its words are read one after the other.
proof fn lemma_scan_run_words(done: Seq<FlagView>, g: Group, upto: int)
    requires
        name_ok(g.name),
        words_ok(g.words),
        0 <= upto <= g.words.len(),
    ensures
        scan_run(group_state(done, g, 0), words_written(g.words.take(upto))) == group_state(
            done,
            g,
            upto,
        ),
    decreases upto,
{
    let words = g.words.take(upto);
    if upto > 0 {
        let w = g.words[upto - 1];
        let before = g.words.take(upto - 1);
        assert(words.drop_last() =~= before);
        assert(words.last() == w);
        lemma_scan_run_words(done, g, upto - 1);
        let start = group_state(done, g, 0);
        let reached = group_state(done, g, upto - 1);
        lemma_scan_run_concat(start, words_written(before) + seq![' '], word_written(w));
        lemma_scan_run_concat(start, words_written(before), seq![' ']);
        lemma_scan_run_one(reached, ' ');
        let gap = scan_step(reached, ' ');
        assert(gap == delimit(reached));
        if upto == 1 {
            assert(first_word_ok(g.words[0]));
            assert(gap.group.values =~= word_texts(words.drop_last()));
        } else {
            assert(later_word_ok(g.words[upto - 1]));
            if upto == 2 {
                assert(first_word_ok(g.words[0]));
                assert(before.drop_last() =~= Seq::<Word>::empty());
            } else {
                assert(later_word_ok(g.words[upto - 2]));
                assert(before.last() == g.words[upto - 2]);
            }
            assert(word_texts(before.drop_last()).push(before.last().text) =~= word_texts(
                before,
            ));
            assert(gap.group.values =~= word_texts(words.drop_last()));
        }
        lemma_scan_run_word(gap, w);
    }
}

/// Whether the reader stands between two groups, with nothing begun.
spec fn resting(s: Scanner) -> bool {
    s.phase is Idle && s.word.len() == 0 && !s.multi && !s.negate
}

/// A group that is written between two groups is read whole, and the group before it is
/// handed over.
proof fn lemma_scan_run_group(from: Scanner, g: Group)
    requires
        resting(from),
        name_ok(g.name),
        words_ok(g.words),
    ensures
        scan_run(from, group_written(g)) == group_state(emit(from).groups, g, g.words.len() as int),
{
    let done = emit(from).groups;
    let opening = group_opening(g);
    // the reader just behind the dashes
    let dashed = Scanner {
        phase: if g.double {
            Phase::Name
        } else {
            Phase::Dash
        },
        multi: false,
        negate: false,
        open: true,
        word: Seq::empty(),
        group: FlagView { negate: g.negate, ..no_flag() },
        groups: done,
    };
    let marked = if g.negate {
        seq!['!', ' ']
    } else {
        Seq::<char>::empty()
    };
    let waiting = scan_run(from, marked);
    if g.negate {
        assert(marked =~= seq!['!'] + seq![' ']);
        lemma_scan_run_concat(from, seq!['!'], seq![' ']);
        lemma_scan_run_one(from, '!');
        lemma_scan_run_one(scan_step(from, '!'), ' ');
    }
    assert(waiting.phase is Idle && waiting.word.len() == 0 && !waiting.multi);
    assert(waiting.negate == g.negate);
    assert(emit(waiting).groups == done);
    if g.double {
        assert(opening =~= marked + (seq!['-'] + seq!['-']));
        lemma_scan_run_concat(from, marked, seq!['-'] + seq!['-']);
        lemma_scan_run_concat(waiting, seq!['-'], seq!['-']);
        lemma_scan_run_one(waiting, '-');
        lemma_scan_run_one(scan_step(waiting, '-'), '-');
    } else {
        assert(opening =~= marked + seq!['-']);
        lemma_scan_run_concat(from, marked, seq!['-']);
        lemma_scan_run_one(waiting, '-');
    }
    assert(scan_step(waiting, '-').word =~= dashed.word);
    assert(scan_run(from, opening) == dashed);
    assert forall|i: int| 0 <= i < g.name.len() implies joins(
        dashed.phase,
        dashed.multi,
        #[trigger] g.name[i],
    ) by {}
    lemma_scan_run_joining(dashed, g.name);
    assert(dashed.word + g.name =~= g.name);
    lemma_scan_run_concat(from, opening, g.name);
    assert(scan_run(from, opening + g.name) == group_state(done, g, 0));
    lemma_scan_run_concat(from, opening + g.name, words_written(g.words));
    assert(g.words.take(g.words.len() as int) =~= g.words);
    lemma_scan_run_words(done, g, g.words.len() as int);
}

/// After the written groups the reader has handed over all but the last, which it is
/// reading.
proof fn lemma_scan_run_line(groups: Seq<Group>)
    requires
        groups.len() > 0,
        line_ok(groups),
    ensures
        scan_run(scan_start(), line_written(groups)) == group_state(
            groups_read(groups.drop_last()),
            groups.last(),
            groups.last().words.len() as int,
        ),
    decreases groups.len(),
{
    let last = groups.last();
    assert(name_ok(groups[groups.len() - 1].name));
    if groups.len() == 1 {
        lemma_scan_run_group(scan_start(), last);
        assert(groups_read(groups.drop_last()) =~= Seq::<FlagView>::empty());
    } else {
        let init = groups.drop_last();
        assert forall|k: int| 0 <= k < init.len() implies {
            &&& name_ok((#[trigger] init[k]).name)
            &&& words_ok(init[k].words)
            &&& k + 1 < init.len() ==> init[k].words.len() > 0
        } by {
            assert(init[k] == groups[k]);
        }
        lemma_scan_run_line(init);
        let before = init.last();
        assert(before == groups[groups.len() - 2]);
        let n = before.words.len() as int;
        assert(n > 0);
        let reached = group_state(groups_read(init.drop_last()), before, n);
        lemma_scan_run_concat(scan_start(), line_written(init) + seq![' '], group_written(last));
        lemma_scan_run_concat(scan_start(), line_written(init), seq![' ']);
        lemma_scan_run_one(reached, ' ');
        let rest = scan_step(reached, ' ');
        assert(rest == delimit(reached));
        assert(before.words.take(n) =~= before.words);
        if n == 1 {
            assert(word_texts(before.words.drop_last()).push(before.words.last().text)
                =~= word_texts(before.words));
        } else {
            assert(later_word_ok(before.words[n - 1]));
            assert(word_texts(before.words.drop_last()).push(before.words.last().text)
                =~= word_texts(before.words));
        }
        assert(rest.group == group_read(before));
        assert(resting(rest));
        assert(emit(rest).groups =~= groups_read(init)) by {
            assert(groups_read(init.drop_last()).push(group_read(before)) =~= groups_read(init));
        }
        lemma_scan_run_group(rest, last);
    }
}

/// A line that is written in order is read as it was meant: every group with its name,
/// its words without their quotes, and its negation, in the order of the line.
pub proof fn lemma_flags_of_written_line(groups: Seq<Group>)
    requires
        line_ok(groups),
    ensures
        flags_of(line_written(groups)) == groups_read(groups),
{
    if groups.len() == 0 {
        assert(groups_read(groups) =~= Seq::<FlagView>::empty());
    } else {
        lemma_scan_run_line(groups);
        let last = groups.last();
        let n = last.words.len() as int;
        let done = groups_read(groups.drop_last());
        let reached = group_state(done, last, n);
        assert(name_ok(groups[groups.len() - 1].name));
        assert(last.words.take(n) =~= last.words);
        if n == 0 {
            assert(word_texts(last.words) =~= Seq::<Seq<char>>::empty());
        } else {
            if n > 1 {
                assert(later_word_ok(last.words[n - 1]));
            }
            assert(word_texts(last.words.drop_last()).push(last.words.last().text) =~= word_texts(
                last.words,
            ));
        }
        assert(settle(reached).group == group_read(last));
        assert(done.push(group_read(last)) =~= groups_read(groups));
    }
}

} // verus!
