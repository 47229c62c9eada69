//! Bookkeeping for the list of past scores.
//!
//! The list lives in a text file, one score per line, newest last. This
//! module decides what is appended to the file and how its content is shown:
//! newest first, and the best three on their own. Reading and writing the
//! file is left to the caller, who hands over and receives plain bytes.

use vstd::prelude::*;

verus! {

/// The byte that separates two lines.
pub const NEWLINE: u8 = 10;

/// Number of scores on the list of the best.
pub const BEST_COUNT: usize = 3;

/// The decimal digits of `n` as text.
pub open spec fn spec_decimal(n: nat) -> Seq<u8>
    decreases n,
{
    if n < 10 {
        seq![(48 + n) as u8]
    } else {
        spec_decimal(n / 10).push((48 + n % 10) as u8)
    }
}

/// What recording `score` appends to the file: a line break and the score.
pub open spec fn spec_entry(score: nat) -> Seq<u8> {
    seq![NEWLINE] + spec_decimal(score)
}

/// The lines of `text`: what stands between its line breaks, so a text
/// with `k` line breaks has `k + 1` lines, some of them perhaps empty.
pub open spec fn spec_lines(text: Seq<u8>) -> Seq<Seq<u8>>
    decreases text.len(),
{
    if text.len() == 0 {
        seq![Seq::empty()]
    } else {
        let before = spec_lines(text.drop_last());
        if text.last() == NEWLINE {
            before.push(Seq::empty())
        } else {
            before.drop_last().push(before.last().push(text.last()))
        }
    }
}

/// The text that has `lines` as its lines.
pub open spec fn spec_joined(lines: Seq<Seq<u8>>) -> Seq<u8>
    decreases lines.len(),
{
    if lines.len() == 0 {
        Seq::empty()
    } else if lines.len() == 1 {
        lines[0]
    } else {
        spec_joined(lines.drop_last()) + seq![NEWLINE] + lines.last()
    }
}

/// The lines of `content` in reverse order, as one text.
pub open spec fn spec_read(content: Seq<u8>) -> Seq<u8> {
    spec_joined(spec_lines(content).reverse())
}

/// The contents of each of `lines`.
pub open spec fn line_views(lines: Seq<Vec<u8>>) -> Seq<Seq<u8>> {
    Seq::new(lines.len(), |i: int| lines[i]@)
}

/// The place of the first of the largest numbers of `scores`.
pub open spec fn spec_best_index(scores: Seq<i32>) -> int
    decreases scores.len(),
{
    if scores.len() <= 1 {
        0
    } else {
        let before = spec_best_index(scores.drop_last());
        if scores.last() > scores[before] {
            scores.len() - 1
        } else {
            before
        }
    }
}

/// The `count` largest of `scores`, largest first.
pub open spec fn spec_best(scores: Seq<i32>, count: nat) -> Seq<i32>
    decreases count,
{
    if count == 0 || scores.len() == 0 {
        Seq::empty()
    } else {
        let best = spec_best_index(scores);
        seq![scores[best]] + spec_best(scores.remove(best), (count - 1) as nat)
    }
}

/// The index that `spec_best_index` picks holds a number that no other
/// exceeds, and is the first to do so.
pub proof fn lemma_best_index(scores: Seq<i32>)
    requires
        scores.len() > 0,
    ensures
        0 <= spec_best_index(scores) < scores.len(),
        forall|i: int|
            0 <= i < scores.len() ==> #[trigger] scores[i] <= scores[spec_best_index(scores)],
        forall|i: int|
            0 <= i < spec_best_index(scores) ==> #[trigger] scores[i] < scores[spec_best_index(
                scores,
            )],
    decreases scores.len(),
{
    if scores.len() > 1 {
        let shorter = scores.drop_last();
        lemma_best_index(shorter);
        assert forall|i: int| 0 <= i < scores.len() implies #[trigger] scores[i]
            <= scores[spec_best_index(scores)] by {
            if i < shorter.len() {
                assert(shorter[i] == scores[i]);
            }
        }
        assert forall|i: int| 0 <= i < spec_best_index(scores) implies #[trigger] scores[i]
            < scores[spec_best_index(scores)] by {
            if i < shorter.len() {
                assert(shorter[i] == scores[i]);
            }
        }
    }
}

/// The list of the best holds as many numbers as asked for, or all there
/// are, and they stand in falling order.
pub proof fn lemma_best_is_sorted(scores: Seq<i32>, count: nat)
    ensures
        spec_best(scores, count).len() == if count <= scores.len() {
            count
        } else {
            scores.len()
        },
        forall|i: int, j: int|
            0 <= i <= j < spec_best(scores, count).len() ==> spec_best(scores, count)[i]
                >= spec_best(scores, count)[j],
        forall|i: int|
            0 <= i < spec_best(scores, count).len() ==> scores.contains(
                #[trigger] spec_best(scores, count)[i],
            ),
    decreases count,
{
    if count > 0 && scores.len() > 0 {
        let best = spec_best_index(scores);
        let others = scores.remove(best);
        let tail = spec_best(others, (count - 1) as nat);
        lemma_best_index(scores);
        lemma_best_is_sorted(others, (count - 1) as nat);
        assert forall|i: int| 0 <= i < tail.len() implies scores.contains(#[trigger] tail[i])
            && tail[i] <= scores[best] by {
            let k = choose|k: int| 0 <= k < others.len() && others[k] == tail[i];
            if k < best {
                assert(others[k] == scores[k]);
            } else {
                assert(others[k] == scores[k + 1]);
            }
        }
        let all = spec_best(scores, count);
        assert forall|i: int, j: int| 0 <= i <= j < all.len() implies all[i] >= all[j] by {
            if i > 0 {
                assert(all[i] == tail[i - 1]);
                assert(all[j] == tail[j - 1]);
            } else if j > 0 {
                assert(all[j] == tail[j - 1]);
            }
        }
        assert forall|i: int| 0 <= i < all.len() implies scores.contains(#[trigger] all[i]) by {
            if i > 0 {
                assert(all[i] == tail[i - 1]);
            }
        }
    }
}

/// Joining the lines of a text gives the text back.
pub proof fn lemma_lines_round_trip(text: Seq<u8>)
    ensures
        spec_lines(text).len() >= 1,
        spec_joined(spec_lines(text)) == text,
    decreases text.len(),
{
    if text.len() > 0 {
        let shorter = text.drop_last();
        lemma_lines_round_trip(shorter);
        let before = spec_lines(shorter);
        let lines = spec_lines(text);
        if text.last() == NEWLINE {
            assert(lines.drop_last() =~= before);
            assert(spec_joined(lines) =~= text);
        } else {
            assert(text =~= shorter.push(text.last()));
            if before.len() == 1 {
                assert(lines.len() == 1);
                assert(lines[0] == before[0].push(text.last()));
                assert(spec_joined(before) == before[0]);
                assert(spec_joined(lines) =~= text);
            } else {
                assert(lines.drop_last() =~= before.drop_last());
                assert(spec_joined(lines) =~= text);
            }
        }
    }
}

/// What a [`Score`] holds, as plain values.
pub struct ScoreView {
    /// Path of the file that holds the list.
    pub file: Seq<char>,
    /// Whether the score of the current run has not been recorded yet.
    pub do_write: bool,
}

/// Records each run's score once.
pub struct Score {
    file: String,
    do_write: bool,
}

impl View for Score {
    type V = ScoreView;

    closed spec fn view(&self) -> ScoreView {
        ScoreView { file: self.file@, do_write: self.do_write }
    }
}

/// The decimal digits of `n` as text.
pub fn decimal(n: usize) -> (text: Vec<u8>)
    ensures
        text@ == spec_decimal(n as nat),
    decreases n,
{
    if n < 10 {
        let mut text: Vec<u8> = Vec::new();
        text.push(48 + n as u8);
        assert(text@ =~= spec_decimal(n as nat));
        text
    } else {
        let mut text = decimal(n / 10);
        text.push(48 + (n % 10) as u8);
        text
    }
}

/// Cuts `content` into its lines.
pub fn lines(content: &Vec<u8>) -> (result: Vec<Vec<u8>>)
    ensures
        line_views(result@) == spec_lines(content@),
        result@.len() >= 1,
{
    let mut done: Vec<Vec<u8>> = Vec::new();
    let mut current: Vec<u8> = Vec::new();
    let mut i: usize = 0;
    proof {
        assert(content@.take(0) =~= Seq::<u8>::empty());
        assert(line_views(done@).push(current@) =~= spec_lines(content@.take(0)));
    }
    while i < content.len()
        invariant
            i <= content.len(),
            line_views(done@).push(current@) == spec_lines(content@.take(i as int)),
        decreases content.len() - i,
    {
        let byte: u8 = content[i];
        let ghost seen = content@.take(i as int);
        let ghost before = line_views(done@).push(current@);
        proof {
            assert(content@.take(i + 1) =~= seen.push(byte));
            assert(seen.push(byte).drop_last() =~= seen);
            assert(before.drop_last() =~= line_views(done@));
        }
        if byte == NEWLINE {
            done.push(current);
            current = Vec::new();
            proof {
                assert(line_views(done@) =~= before);
                assert(line_views(done@).push(current@) =~= before.push(Seq::empty()));
            }
        } else {
            current.push(byte);
            proof {
                assert(line_views(done@).push(current@) =~= before.drop_last().push(
                    before.last().push(byte),
                ));
            }
        }
        i += 1;
    }
    proof {
        assert(content@.take(content.len() as int) =~= content@);
    }
    let ghost before = line_views(done@).push(current@);
    done.push(current);
    proof {
        assert(line_views(done@) =~= before);
    }
    done
}

/// The `count` largest of `scores`, largest first.
pub fn best_scores(scores: &Vec<i32>, count: usize) -> (best: Vec<i32>)
    ensures
        best@ == spec_best(scores@, count as nat),
{
    let mut left: Vec<i32> = Vec::new();
    let mut k: usize = 0;
    while k < scores.len()
        invariant
            k <= scores.len(),
            left@ == scores@.take(k as int),
        decreases scores.len() - k,
    {
        left.push(scores[k]);
        proof {
            assert(left@ =~= scores@.take(k + 1));
        }
        k += 1;
    }
    proof {
        assert(scores@.take(scores.len() as int) =~= scores@);
    }
    let mut best: Vec<i32> = Vec::new();
    let mut taken: usize = 0;
    while taken < count && left.len() > 0
        invariant
            taken <= count,
            best@ + spec_best(left@, (count - taken) as nat) == spec_best(scores@, count as nat),
        decreases count - taken,
    {
        let mut at: usize = 0;
        let mut j: usize = 1;
        proof {
            assert(left@.take(1).drop_last() =~= left@.take(0));
        }
        while j < left.len()
            invariant
                1 <= j <= left.len(),
                at < j,
                at == spec_best_index(left@.take(j as int)),
            decreases left.len() - j,
        {
            proof {
                assert(left@.take(j + 1).drop_last() =~= left@.take(j as int));
                assert(left@.take(j as int)[at as int] == left@[at as int]);
            }
            if left[j] > left[at] {
                at = j;
            }
            j += 1;
        }
        proof {
            assert(left@.take(left.len() as int) =~= left@);
        }
        let ghost listed = left@;
        let ghost chosen = best@;
        let score: i32 = left.remove(at);
        best.push(score);
        proof {
            assert(best@ + spec_best(left@, (count - taken - 1) as nat) =~= chosen + (seq![
                listed[at as int],
            ] + spec_best(listed.remove(at as int), (count - taken - 1) as nat)));
        }
        taken += 1;
    }
    proof {
        assert(best@ + Seq::<i32>::empty() =~= best@);
    }
    best
}

impl Score {
    /// A recorder for `assets/scores.txt` with the current run still unrecorded.
    pub fn new() -> (s: Self)
        ensures
            s@.file == "assets/scores.txt"@,
            s@.do_write,
    {
        Self { file: "assets/scores.txt".to_owned(), do_write: true }
    }

    /// The path of the file that holds the list.
    pub fn file(&self) -> (path: &String)
        ensures
            path@ == self@.file,
    {
        &self.file
    }

    /// Records `score` for the current run, once: returns the bytes that the
    /// caller has to append to the file, or nothing if the run has been
    /// recorded already.
    pub fn write(&mut self, score: usize) -> (entry: Option<Vec<u8>>)
        ensures
            final(self)@.file == old(self)@.file,
            !final(self)@.do_write,
            old(self)@.do_write ==> entry.is_some() && entry.unwrap()@ == spec_entry(score as nat),
            !old(self)@.do_write ==> entry.is_none(),
    {
        if self.do_write {
            let digits = decimal(score);
            let mut entry: Vec<u8> = Vec::new();
            entry.push(NEWLINE);
            let mut i: usize = 0;
            while i < digits.len()
                invariant
                    i <= digits.len(),
                    entry@ == seq![NEWLINE] + digits@.take(i as int),
                decreases digits.len() - i,
            {
                entry.push(digits[i]);
                proof {
                    assert(entry@ =~= seq![NEWLINE] + digits@.take(i + 1));
                }
                i += 1;
            }
            proof {
                assert(digits@.take(digits.len() as int) =~= digits@);
            }
            self.do_write = false;
            Some(entry)
        } else {
            None
        }
    }

    /// Marks the current run as unrecorded again.
    pub fn reset(&mut self)
        ensures
            final(self)@.file == old(self)@.file,
            final(self)@.do_write,
    {
        self.do_write = true;
    }

    /// Turns the content of the file into what is shown: the same lines,
    /// newest first.
    pub fn read(&self, content: &Vec<u8>) -> (shown: Vec<u8>)
        ensures
            shown@ == spec_read(content@),
    {
        let all = lines(content);
        let ghost reversed = line_views(all@).reverse();
        let mut shown: Vec<u8> = Vec::new();
        let mut left: usize = all.len();
        proof {
            assert(reversed.take(0) =~= Seq::<Seq<u8>>::empty());
        }
        while left > 0
            invariant
                left <= all.len(),
                all@.len() >= 1,
                reversed == line_views(all@).reverse(),
                shown@ == spec_joined(reversed.take(all.len() - left)),
            decreases left,
        {
            let ghost count = all.len() - left;
            let ghost start = shown@;
            if left < all.len() {
                shown.push(NEWLINE);
            }
            left -= 1;
            let line = &all[left];
            let ghost head = shown@;
            let mut i: usize = 0;
            while i < line.len()
                invariant
                    i <= line.len(),
                    shown@ == head + line@.take(i as int),
                decreases line.len() - i,
            {
                shown.push(line[i]);
                proof {
                    assert(shown@ =~= head + line@.take(i + 1));
                }
                i += 1;
            }
            proof {
                assert(line@.take(line.len() as int) =~= line@);
                assert(reversed[count] == line@);
                assert(reversed.take(count + 1).drop_last() =~= reversed.take(count));
                assert(reversed.take(count + 1).last() == line@);
                if count > 0 {
                    assert(shown@ =~= start + seq![NEWLINE] + line@);
                } else {
                    assert(shown@ =~= line@);
                    assert(reversed.take(1)[0] == line@);
                }
            }
        }
        proof {
            assert(reversed.take(all.len() as int) =~= reversed);
        }
        shown
    }
}

} // verus!
