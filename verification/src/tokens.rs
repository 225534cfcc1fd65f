//! What the words of a typed rule are: the model of the quote-aware splitter.

use vstd::prelude::*;

verus! {

/// Which quote, if any, is open at a place in the text.
pub enum Quoting {
    /// No quote is open.
    Bare,
    /// A `"` is open.
    Double,
    /// A `'` is open.
    Single,
}

/// Where the splitter stands after some prefix of the text.
pub struct Splitter {
    /// The words that a space has closed, first one first.
    pub tokens: Seq<Seq<char>>,
    /// The characters of the word that is still open.
    pub word: Seq<char>,
    /// The quote that is open.
    pub quote: Quoting,
}

/// The splitter before any character: no word, nothing open.
pub open spec fn split_start() -> Splitter {
    Splitter { tokens: Seq::empty(), word: Seq::empty(), quote: Quoting::Bare }
}

/// One character further. A quote character opens its region, closes it, or, inside the
/// other kind of region, is an ordinary character. A space outside every region closes
/// the open word, even an empty one. Every other character joins the open word.
pub open spec fn split_step(s: Splitter, c: char) -> Splitter {
    if c == '"' {
        match s.quote {
            Quoting::Bare => Splitter { quote: Quoting::Double, ..s },
            Quoting::Double => Splitter { quote: Quoting::Bare, ..s },
            Quoting::Single => Splitter { word: s.word.push(c), ..s },
        }
    } else if c == '\'' {
        match s.quote {
            Quoting::Bare => Splitter { quote: Quoting::Single, ..s },
            Quoting::Single => Splitter { quote: Quoting::Bare, ..s },
            Quoting::Double => Splitter { word: s.word.push(c), ..s },
        }
    } else if c == ' ' && s.quote is Bare {
        Splitter { tokens: s.tokens.push(s.word), word: Seq::empty(), ..s }
    } else {
        Splitter { word: s.word.push(c), ..s }
    }
}

/// The splitter after all of `text`, entered at `from`.
pub open spec fn split_run(from: Splitter, text: Seq<char>) -> Splitter
    decreases text.len(),
{
    if text.len() == 0 {
        from
    } else {
        split_step(split_run(from, text.drop_last()), text.last())
    }
}

/// The words at the end of the text: those already closed, and the open one unless it is
/// empty. A quote that is still open is let be.
pub open spec fn split_end(s: Splitter) -> Seq<Seq<char>> {
    if s.word.len() > 0 {
        s.tokens.push(s.word)
    } else {
        s.tokens
    }
}

/// The words of a rule as it is typed on a command line.
pub open spec fn tokens_of(text: Seq<char>) -> Seq<Seq<char>> {
    split_end(split_run(split_start(), text))
}

/// A stretch of a typed rule that is meant as one word: its characters, and the
/// quotes it is written in.
pub struct Segment {
    /// The characters of the word.
    pub text: Seq<char>,
    /// The quotes around them when written.
    pub quote: Quoting,
}

/// Whether `c` can stand in a segment written in `quote` without ending it.
pub open spec fn plain_in(quote: Quoting, c: char) -> bool {
    match quote {
        Quoting::Bare => c != ' ' && c != '"' && c != '\'',
        Quoting::Double => c != '"',
        Quoting::Single => c != '\'',
    }
}

/// Whether every character of the segment can stand in its quotes.
pub open spec fn segment_ok(seg: Segment) -> bool {
    forall|i: int| 0 <= i < seg.text.len() ==> plain_in(seg.quote, #[trigger] seg.text[i])
}

/// The segment as it is written: its characters, inside its quotes.
pub open spec fn written(seg: Segment) -> Seq<char> {
    match seg.quote {
        Quoting::Bare => seg.text,
        Quoting::Double => seq!['"'] + seg.text + seq!['"'],
        Quoting::Single => seq!['\''] + seg.text + seq!['\''],
    }
}

/// The segments written one after the other, with one space between two of them.
pub open spec fn joined(segs: Seq<Segment>) -> Seq<char>
    decreases segs.len(),
{
    if segs.len() == 0 {
        Seq::empty()
    } else if segs.len() == 1 {
        written(segs[0])
    } else {
        joined(segs.drop_last()) + seq![' '] + written(segs.last())
    }
}

/// The characters of each segment, without quotes.
pub open spec fn texts(segs: Seq<Segment>) -> Seq<Seq<char>> {
    Seq::new(segs.len(), |i: int| segs[i].text)
}

/// Running over two texts in turn is running over both at once.
pub proof fn lemma_split_run_concat(from: Splitter, a: Seq<char>, b: Seq<char>)
    ensures
        split_run(from, a + b) == split_run(split_run(from, a), b),
    decreases b.len(),
{
    if b.len() == 0 {
        assert(a + b =~= a);
    } else {
        assert((a + b).drop_last() =~= a + b.drop_last());
        assert((a + b).last() == b.last());
        lemma_split_run_concat(from, a, b.drop_last());
    }
}

/// Running over one character is one step.
pub proof fn lemma_split_run_one(from: Splitter, c: char)
    ensures
        split_run(from, seq![c]) == split_step(from, c),
{
    let one = seq![c];
    assert(one.drop_last() =~= Seq::<char>::empty());
    assert(split_run(from, one.drop_last()) == from);
}

/// Characters that cannot end the region they stand in all join the open word.
proof fn lemma_split_run_plain(from: Splitter, text: Seq<char>)
    requires
        forall|i: int| 0 <= i < text.len() ==> plain_in(from.quote, #[trigger] text[i]),
    ensures
        split_run(from, text) == (Splitter { word: from.word + text, ..from }),
    decreases text.len(),
{
    if text.len() == 0 {
        assert(from.word + text =~= from.word);
    } else {
        let init = text.drop_last();
        assert forall|i: int| 0 <= i < init.len() implies plain_in(
            from.quote,
            #[trigger] init[i],
        ) by {
            assert(init[i] == text[i]);
        }
        lemma_split_run_plain(from, init);
        assert(plain_in(from.quote, text[text.len() - 1]));
        assert((from.word + init).push(text.last()) =~= from.word + text);
    }
}

/// A written segment, met outside every region, joins the open word and leaves no
/// region open.
proof fn lemma_split_run_written(from: Splitter, seg: Segment)
    requires
        from.quote is Bare,
        segment_ok(seg),
    ensures
        split_run(from, written(seg)) == (Splitter { word: from.word + seg.text, ..from }),
{
    match seg.quote {
        Quoting::Bare => {
            lemma_split_run_plain(from, seg.text);
        },
        Quoting::Double => {
            let opened = Splitter { quote: Quoting::Double, ..from };
            lemma_split_run_concat(from, seq!['"'] + seg.text, seq!['"']);
            lemma_split_run_concat(from, seq!['"'], seg.text);
            lemma_split_run_one(from, '"');
            lemma_split_run_plain(opened, seg.text);
            lemma_split_run_one(split_run(opened, seg.text), '"');
        },
        Quoting::Single => {
            let opened = Splitter { quote: Quoting::Single, ..from };
            lemma_split_run_concat(from, seq!['\''] + seg.text, seq!['\'']);
            lemma_split_run_concat(from, seq!['\''], seg.text);
            lemma_split_run_one(from, '\'');
            lemma_split_run_plain(opened, seg.text);
            lemma_split_run_one(split_run(opened, seg.text), '\'');
        },
    }
}

/// After the joined segments the splitter has closed all but the last, which is open.
proof fn lemma_split_run_joined(segs: Seq<Segment>)
    requires
        segs.len() > 0,
        forall|i: int| 0 <= i < segs.len() ==> segment_ok(#[trigger] segs[i]),
    ensures
        split_run(split_start(), joined(segs)) == (Splitter {
            tokens: texts(segs.drop_last()),
            word: segs.last().text,
            quote: Quoting::Bare,
        }),
    decreases segs.len(),
{
    let last = segs.last();
    assert(segment_ok(segs[segs.len() - 1]));
    if segs.len() == 1 {
        lemma_split_run_written(split_start(), last);
        assert(Seq::<char>::empty() + last.text =~= last.text);
        assert(texts(segs.drop_last()) =~= Seq::<Seq<char>>::empty());
    } else {
        let init = segs.drop_last();
        assert forall|i: int| 0 <= i < init.len() implies segment_ok(#[trigger] init[i]) by {
            assert(init[i] == segs[i]);
        }
        lemma_split_run_joined(init);
        let after_init = split_run(split_start(), joined(init));
        lemma_split_run_concat(split_start(), joined(init) + seq![' '], written(last));
        lemma_split_run_concat(split_start(), joined(init), seq![' ']);
        lemma_split_run_one(after_init, ' ');
        let closed = split_step(after_init, ' ');
        assert(closed.tokens =~= texts(init)) by {
            assert(texts(init.drop_last()).push(init.last().text) =~= texts(init));
        }
        lemma_split_run_written(closed, last);
        assert(Seq::<char>::empty() + last.text =~= last.text);
    }
}

/// Words written out, each bare or in quotes that its characters do not hold, and joined
/// by single spaces, are split into the same words again, without their quotes. The last
/// word must not be empty: the end of the text closes no empty word.
pub proof fn lemma_tokens_of_joined(segs: Seq<Segment>)
    requires
        forall|i: int| 0 <= i < segs.len() ==> segment_ok(#[trigger] segs[i]),
        segs.len() > 0 ==> segs.last().text.len() > 0,
    ensures
        tokens_of(joined(segs)) == texts(segs),
{
    if segs.len() == 0 {
        assert(texts(segs) =~= Seq::<Seq<char>>::empty());
    } else {
        lemma_split_run_joined(segs);
        assert(texts(segs.drop_last()).push(segs.last().text) =~= texts(segs));
    }
}

/// Without a space in the text no word is ever closed before the end.
proof fn lemma_split_run_spaceless(text: Seq<char>)
    requires
        forall|i: int| 0 <= i < text.len() ==> text[i] != ' ',
    ensures
        split_run(split_start(), text).tokens == Seq::<Seq<char>>::empty(),
    decreases text.len(),
{
    if text.len() > 0 {
        let init = text.drop_last();
        assert forall|i: int| 0 <= i < init.len() implies init[i] != ' ' by {
            assert(init[i] == text[i]);
        }
        lemma_split_run_spaceless(init);
        assert(text[text.len() - 1] != ' ');
    }
}

/// Quotes alone make no empty word: a text without a space is split into at most one
/// word, and that word is not empty.
pub proof fn lemma_empty_token_needs_space(text: Seq<char>)
    requires
        forall|i: int| 0 <= i < text.len() ==> text[i] != ' ',
    ensures
        tokens_of(text).len() <= 1,
        forall|k: int| 0 <= k < tokens_of(text).len() ==> (#[trigger] tokens_of(text)[k]).len() > 0,
{
    lemma_split_run_spaceless(text);
}

} // verus!
