//! Reading a command line: the words of a line of text, in lower case.

use vstd::prelude::*;

verus! {

/// Whether `char::is_whitespace` holds of `c`. Unicode's White_Space
/// property decides it.
pub uninterp spec fn is_whitespace_char(c: char) -> bool;

/// What `str::to_lowercase` makes of `s`. Unicode's lowercase mapping decides
/// it, and it need not keep the length.
pub uninterp spec fn lowercase_of(s: Seq<char>) -> Seq<char>;

/// `char::is_whitespace` depends on the character alone.
pub assume_specification[ char::is_whitespace ](c: char) -> (b: bool)
    ensures
        b == is_whitespace_char(c),
;

/// `str::to_lowercase` gives a new string that depends on the text alone.
pub assume_specification[ str::to_lowercase ](s: &str) -> (lower: String)
    ensures
        lower@ == lowercase_of(s@),
;

/// `String::push` appends one character.
pub assume_specification[ String::push ](s: &mut String, c: char)
    ensures
        final(s)@ == old(s)@.push(c),
;

/// Whether the flags mark position `i` as a blank. A position without a flag
/// is no blank.
pub open spec fn blank_at(blank: Seq<bool>, i: int) -> bool {
    0 <= i < blank.len() && blank[i]
}

/// The words of `text`: its maximal runs of characters that are not blanks,
/// from left to right.
pub open spec fn words_of(text: Seq<char>, blank: Seq<bool>) -> Seq<Seq<char>>
    decreases text.len(),
{
    if text.len() == 0 {
        Seq::empty()
    } else {
        let n = text.len() - 1;
        let before = words_of(text.take(n), blank);
        if blank_at(blank, n) {
            before
        } else if n > 0 && !blank_at(blank, n - 1) {
            before.drop_last().push(before.last().push(text[n]))
        } else {
            before.push(seq![text[n]])
        }
    }
}

/// Where the words of a text of `len` characters stand: for each word the
/// place of its first character and the place behind its last.
pub open spec fn runs_of(len: nat, blank: Seq<bool>) -> Seq<(int, int)>
    decreases len,
{
    if len == 0 {
        Seq::empty()
    } else {
        let n = len - 1;
        let before = runs_of(n as nat, blank);
        if blank_at(blank, n) {
            before
        } else if n > 0 && !blank_at(blank, n - 1) {
            before.drop_last().push((before.last().0, n + 1))
        } else {
            before.push((n, n + 1))
        }
    }
}

/// Whether the places from `from` up to `to` are a maximal run of characters
/// that are not blanks, in a text of `len` characters.
pub open spec fn is_run(blank: Seq<bool>, len: nat, from: int, to: int) -> bool {
    &&& 0 <= from < to <= len
    &&& forall|p: int| from <= p < to ==> !blank_at(blank, p)
    &&& from == 0 || blank_at(blank, from - 1)
    &&& to == len || blank_at(blank, to)
}

/// The runs are exactly the maximal runs of characters that are not blanks:
/// each is one, they come from left to right without touching, and every
/// character that is no blank lies in one of them.
pub proof fn lemma_runs_are_maximal(len: nat, blank: Seq<bool>)
    ensures
        forall|k: int|
            0 <= k < runs_of(len, blank).len() ==> is_run(
                blank,
                len,
                (#[trigger] runs_of(len, blank)[k]).0,
                runs_of(len, blank)[k].1,
            ),
        forall|k: int|
            0 <= k < runs_of(len, blank).len() - 1 ==> (#[trigger] runs_of(len, blank)[k]).1
                < runs_of(len, blank)[k + 1].0,
        forall|p: int|
            0 <= p < len && !blank_at(blank, p) ==> exists|k: int|
                0 <= k < runs_of(len, blank).len() && (#[trigger] runs_of(len, blank)[k]).0 <= p
                    < runs_of(len, blank)[k].1,
        len > 0 && !blank_at(blank, len - 1) ==> runs_of(len, blank).len() > 0 && runs_of(
            len,
            blank,
        ).last().1 == len,
    decreases len,
{
    if len > 0 {
        let n = len - 1;
        let before = runs_of(n as nat, blank);
        let after = runs_of(len, blank);
        lemma_runs_are_maximal(n as nat, blank);
        assert forall|k: int| 0 <= k < before.len() - 1 implies (#[trigger] before[k]).1 < n by {
            assert(before[k].1 < before[k + 1].0);
            assert(is_run(blank, n as nat, before[k + 1].0, before[k + 1].1));
        }
        if blank_at(blank, n) {
            assert forall|k: int| 0 <= k < after.len() implies is_run(
                blank,
                len,
                (#[trigger] after[k]).0,
                after[k].1,
            ) by {
                assert(is_run(blank, n as nat, before[k].0, before[k].1));
            }
            assert forall|p: int| 0 <= p < len && !blank_at(blank, p) implies exists|k: int|
                0 <= k < after.len() && (#[trigger] after[k]).0 <= p < after[k].1 by {
                let k = choose|k: int|
                    0 <= k < before.len() && (#[trigger] before[k]).0 <= p < before[k].1;
                assert(after[k].0 <= p < after[k].1);
            }
        } else if n > 0 && !blank_at(blank, n - 1) {
            let last = before.len() - 1;
            assert(is_run(blank, n as nat, before[last].0, before[last].1));
            assert forall|k: int| 0 <= k < after.len() implies is_run(
                blank,
                len,
                (#[trigger] after[k]).0,
                after[k].1,
            ) by {
                if k < last {
                    assert(after[k] == before[k]);
                    assert(is_run(blank, n as nat, before[k].0, before[k].1));
                    assert(before[k].1 < n);
                }
            }
            assert forall|k: int| 0 <= k < after.len() - 1 implies (#[trigger] after[k]).1 < after[k
                + 1].0 by {
                assert(after[k] == before[k]);
                assert(before[k].1 < before[k + 1].0);
            }
            assert forall|p: int| 0 <= p < len && !blank_at(blank, p) implies exists|k: int|
                0 <= k < after.len() && (#[trigger] after[k]).0 <= p < after[k].1 by {
                if p < n {
                    let k = choose|k: int|
                        0 <= k < before.len() && (#[trigger] before[k]).0 <= p < before[k].1;
                    assert(after[k].0 <= p < after[k].1);
                } else {
                    assert(after[last].0 <= p < after[last].1);
                }
            }
        } else {
            let last = before.len() as int;
            assert forall|k: int| 0 <= k < before.len() implies (#[trigger] before[k]).1 < n by {
                assert(is_run(blank, n as nat, before[k].0, before[k].1));
                if before[k].1 == n {
                    assert(!blank_at(blank, n - 1));
                }
            }
            assert forall|k: int| 0 <= k < after.len() implies is_run(
                blank,
                len,
                (#[trigger] after[k]).0,
                after[k].1,
            ) by {
                if k < last {
                    assert(after[k] == before[k]);
                    assert(is_run(blank, n as nat, before[k].0, before[k].1));
                    assert(before[k].1 < n);
                }
            }
            assert forall|k: int| 0 <= k < after.len() - 1 implies (#[trigger] after[k]).1 < after[k
                + 1].0 by {
                assert(after[k] == before[k]);
                if k + 1 < last {
                    assert(before[k].1 < before[k + 1].0);
                }
            }
            assert forall|p: int| 0 <= p < len && !blank_at(blank, p) implies exists|k: int|
                0 <= k < after.len() && (#[trigger] after[k]).0 <= p < after[k].1 by {
                if p < n {
                    let k = choose|k: int|
                        0 <= k < before.len() && (#[trigger] before[k]).0 <= p < before[k].1;
                    assert(after[k].0 <= p < after[k].1);
                } else {
                    assert(after[last].0 <= p < after[last].1);
                }
            }
        }
    }
}

/// The words are the text between the bounds of the runs, one word for
/// each run. So no word is empty, and none holds a blank.
pub proof fn lemma_words_are_the_runs(text: Seq<char>, blank: Seq<bool>)
    ensures
        words_of(text, blank).len() == runs_of(text.len(), blank).len(),
        forall|k: int|
            0 <= k < words_of(text, blank).len() ==> #[trigger] words_of(text, blank)[k]
                == text.subrange(runs_of(text.len(), blank)[k].0, runs_of(text.len(), blank)[k].1),
    decreases text.len(),
{
    if text.len() > 0 {
        let n = text.len() - 1;
        let front = text.take(n);
        let before = words_of(front, blank);
        let bounds = runs_of(n as nat, blank);
        let words = words_of(text, blank);
        let runs = runs_of(text.len(), blank);
        lemma_words_are_the_runs(front, blank);
        lemma_runs_are_maximal(n as nat, blank);
        assert forall|k: int| 0 <= k < before.len() implies #[trigger] before[k] == text.subrange(
            bounds[k].0,
            bounds[k].1,
        ) by {
            assert(is_run(blank, n as nat, bounds[k].0, bounds[k].1));
            assert(front.subrange(bounds[k].0, bounds[k].1) =~= text.subrange(
                bounds[k].0,
                bounds[k].1,
            ));
        }
        if !blank_at(blank, n) && n > 0 && !blank_at(blank, n - 1) {
            let last = before.len() - 1;
            assert(bounds[last].1 == n);
            assert(text.subrange(bounds[last].0, n).push(text[n]) =~= text.subrange(
                bounds[last].0,
                n + 1,
            ));
        } else if !blank_at(blank, n) {
            assert(seq![text[n]] =~= text.subrange(n, n + 1));
        }
    }
}

/// The flags that mark the whitespace of `text`.
pub open spec fn whitespace_of(text: Seq<char>) -> Seq<bool> {
    Seq::new(text.len(), |i: int| is_whitespace_char(text[i]))
}

/// The words of a command line, each in lower case.
pub open spec fn cleaned(text: Seq<char>) -> Seq<Seq<char>> {
    words_of(text, whitespace_of(text)).map_values(|w: Seq<char>| lowercase_of(w))
}

/// For each character of `text`, whether it is whitespace.
pub fn whitespace_flags(text: &str) -> (flags: Vec<bool>)
    ensures
        flags@ == whitespace_of(text@),
{
    let mut flags: Vec<bool> = Vec::new();
    for c in it: text.chars()
        invariant
            it.seq() == text@,
            flags@.len() == it.index(),
            forall|i: int| 0 <= i < flags@.len() ==> flags@[i] == is_whitespace_char(text@[i]),
    {
        flags.push(c.is_whitespace());
    }
    assert(flags@ =~= whitespace_of(text@));
    flags
}

/// Splits `text` at the positions that `blank` marks: the result holds the
/// maximal runs of unmarked characters, from left to right, and so no empty
/// word.
pub fn split_words(text: &str, blank: &Vec<bool>) -> (words: Vec<String>)
    ensures
        words.deep_view() == words_of(text@, blank@),
{
    let total = text.unicode_len();
    let mut words: Vec<String> = Vec::new();
    let mut current = String::new();
    let mut i: usize = 0;
    for c in it: text.chars()
        invariant
            it.seq() == text@,
            i == it.index(),
            total == text@.len(),
            current@.len() > 0 <==> i > 0 && !blank_at(blank@, i - 1),
            words_of(text@.take(i as int), blank@) == if current@.len() > 0 {
                words.deep_view().push(current@)
            } else {
                words.deep_view()
            },
    {
        let ghost done = words_of(text@.take(i as int), blank@);
        let ghost found = words.deep_view();
        assert(text@.take(i + 1).take(i as int) =~= text@.take(i as int));
        let is_blank = i < blank.len() && blank[i];
        if is_blank {
            if !current.as_str().is_empty() {
                words.push(current);
                current = String::new();
                assert(words.deep_view() =~= found.push(done.last()));
            }
        } else {
            let ghost run = current@;
            current.push(c);
            proof {
                if run.len() > 0 {
                    assert(done.drop_last() =~= found);
                    assert(done.last() == run);
                } else {
                    assert(current@ =~= seq![c]);
                }
            }
        }
        i += 1;
    }
    assert(text@.take(i as int) =~= text@);
    if !current.as_str().is_empty() {
        let ghost found = words.deep_view();
        words.push(current);
        assert(words.deep_view() =~= found.push(current@));
    }
    words
}

/// The words of a command line, split at whitespace, each in lower case.
pub fn clean_input(text: &str) -> (tokens: Vec<String>)
    ensures
        tokens.deep_view() == cleaned(text@),
{
    let flags = whitespace_flags(text);
    let words = split_words(text, &flags);
    let mut tokens: Vec<String> = Vec::new();
    let mut i: usize = 0;
    while i < words.len()
        invariant
            i <= words@.len(),
            tokens@.len() == i,
            forall|j: int| 0 <= j < i ==> tokens@[j]@ == lowercase_of(words@[j]@),
        decreases words@.len() - i,
    {
        tokens.push(words[i].as_str().to_lowercase());
        i += 1;
    }
    assert(tokens.deep_view() =~= cleaned(text@));
    tokens
}

} // verus!
