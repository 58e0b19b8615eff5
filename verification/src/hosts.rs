use vstd::prelude::*;
use vstd::string::*;

verus! {

/// The line that opens the block of blocked sites in the hosts file.
pub open spec fn block_start() -> Seq<char> {
    "# --- focusd start ---"@
}

/// The line that closes the block of blocked sites in the hosts file.
pub open spec fn block_end() -> Seq<char> {
    "# --- focusd end ---"@
}

/// The hosts-file line that sends `site` to the local machine.
pub open spec fn block_line(site: Seq<char>) -> Seq<char> {
    "127.0.0.1\t"@ + site
}

/// The texts of a list of lines.
pub open spec fn line_texts(lines: Seq<String>) -> Seq<Seq<char>> {
    lines.map_values(|l: String| l@)
}

/// Lines joined into one text, with a newline between each two of them.
pub open spec fn join_lines(lines: Seq<Seq<char>>) -> Seq<char>
    decreases lines.len(),
{
    if lines.len() == 0 {
        seq![]
    } else if lines.len() == 1 {
        lines[0]
    } else {
        join_lines(lines.drop_last()) + seq!['\n'] + lines.last()
    }
}

/// The lines that lie outside every block, read from the front with `in_block` telling whether
/// a block is open. The marker lines themselves are dropped; an end marker outside a block is
/// dropped too, and a block left open runs to the end.
pub open spec fn lines_outside_block(lines: Seq<Seq<char>>, in_block: bool) -> Seq<Seq<char>>
    decreases lines.len(),
{
    if lines.len() == 0 {
        seq![]
    } else {
        let line = lines[0];
        let rest = lines.drop_first();
        if line == block_start() {
            lines_outside_block(rest, true)
        } else if line == block_end() {
            lines_outside_block(rest, false)
        } else if in_block {
            lines_outside_block(rest, true)
        } else {
            seq![line] + lines_outside_block(rest, false)
        }
    }
}

/// The lines followed by a block that sends each of the `blocked` sites to the local machine.
pub open spec fn lines_with_block(lines: Seq<Seq<char>>, blocked: Seq<Seq<char>>) -> Seq<Seq<char>> {
    lines + seq![block_start()] + blocked.map_values(|site: Seq<char>| block_line(site))
        + seq![block_end()]
}

/// Some line opens a block.
pub open spec fn has_block(lines: Seq<Seq<char>>) -> bool {
    lines.contains(block_start())
}

fn block_start_line() -> (s: String)
    ensures
        s@ == block_start(),
{
    String::from_str("# --- focusd start ---")
}

fn block_end_line() -> (s: String)
    ensures
        s@ == block_end(),
{
    String::from_str("# --- focusd end ---")
}

/// Joins lines into one text with a newline between each two of them.
fn join_with_newlines(lines: &Vec<String>) -> (text: String)
    ensures
        text@ == join_lines(line_texts(lines@)),
{
    let mut text = String::new();
    let n = lines.len();
    let mut k: usize = 0;
    while k < n
        invariant
            n == lines@.len(),
            k <= n,
            text@ == join_lines(line_texts(lines@.take(k as int))),
        decreases n - k,
    {
        let ghost before = lines@.take(k as int);
        assert(line_texts(lines@.take(k + 1)).drop_last() =~= line_texts(before));
        if k > 0 {
            proof {
                reveal_strlit("\n");
            }
            text.append("\n");
        } else {
            assert(text@ =~= Seq::<char>::empty());
        }
        text.append(lines[k].as_str());
        let ghost after = line_texts(lines@.take(k + 1));
        assert(after.len() == k + 1);
        assert(after.last() == lines@[k as int]@);
        if k == 0 {
            assert(after[0] == lines@[0]@);
        }
        k = k + 1;
    }
    assert(lines@.take(n as int) =~= lines@);
    text
}


/// The hosts file without the focusd block: every line between a start marker and the next
/// end marker is dropped, and so are the markers. The remaining lines are joined with newlines.
pub fn hosts_remove(lines: &Vec<String>) -> (text: String)
    ensures
        text@ == join_lines(lines_outside_block(line_texts(lines@), false)),
{
    let start = block_start_line();
    let end = block_end_line();
    let mut kept: Vec<String> = Vec::new();
    let mut in_block = false;
    let n = lines.len();
    let mut k: usize = 0;
    let ghost all = line_texts(lines@);
    assert(all.skip(0) =~= all);
    assert(line_texts(kept@) =~= Seq::<Seq<char>>::empty());
    assert(Seq::<Seq<char>>::empty() + lines_outside_block(all, false) =~= lines_outside_block(all, false));
    while k < n
        invariant
            n == lines@.len(),
            k <= n,
            all == line_texts(lines@),
            start@ == block_start(),
            end@ == block_end(),
            line_texts(kept@) + lines_outside_block(all.skip(k as int), in_block)
                == lines_outside_block(all, false),
        decreases n - k,
    {
        let ghost rest = all.skip(k as int);
        assert(rest[0] == lines@[k as int]@);
        assert(rest.drop_first() =~= all.skip(k + 1));
        let line = &lines[k];
        if *line == start {
            in_block = true;
        } else if *line == end {
            in_block = false;
        } else if !in_block {
            let ghost kept_before = line_texts(kept@);
            kept.push(line.clone());
            assert(line_texts(kept@) =~= kept_before.push(line@));
            assert(kept_before.push(line@) + lines_outside_block(all.skip(k + 1), false)
                =~= kept_before + (seq![line@] + lines_outside_block(all.skip(k + 1), false)));
        }
        k = k + 1;
    }
    assert(all.skip(n as int) =~= Seq::<Seq<char>>::empty());
    assert(line_texts(kept@) + Seq::<Seq<char>>::empty() =~= line_texts(kept@));
    join_with_newlines(&kept)
}

/// The hosts file followed by the focusd block: the start marker, a line
/// `127.0.0.1<tab><site>` for each blocked site, and the end marker, all joined with newlines.
pub fn hosts_add(lines: &Vec<String>, blocked: &Vec<String>) -> (text: String)
    ensures
        text@ == join_lines(lines_with_block(line_texts(lines@), line_texts(blocked@))),
{
    let mut output: Vec<String> = Vec::new();
    let n = lines.len();
    let mut k: usize = 0;
    while k < n
        invariant
            n == lines@.len(),
            k <= n,
            output@.len() == k,
            forall|j: int| 0 <= j < k ==> #[trigger] output@[j]@ == lines@[j]@,
        decreases n - k,
    {
        output.push(lines[k].clone());
        k = k + 1;
    }
    assert(line_texts(output@) =~= line_texts(lines@));
    output.push(block_start_line());
    let ghost head = line_texts(output@);
    assert(head =~= line_texts(lines@) + seq![block_start()]);
    let m = blocked.len();
    let mut i: usize = 0;
    let ghost sites = line_texts(blocked@);
    proof {
        reveal_strlit("127.0.0.1\t");
    }
    while i < m
        invariant
            m == blocked@.len(),
            i <= m,
            sites == line_texts(blocked@),
            head == line_texts(lines@) + seq![block_start()],
            line_texts(output@) == head + sites.take(i as int).map_values(
                |site: Seq<char>| block_line(site),
            ),
        decreases m - i,
    {
        let mut entry = String::from_str("127.0.0.1\t");
        entry.append(blocked[i].as_str());
        let ghost before = output@;
        output.push(entry);
        assert(line_texts(output@) =~= line_texts(before).push(entry@));
        assert(sites.take(i + 1).map_values(|site: Seq<char>| block_line(site)) =~= sites.take(
            i as int,
        ).map_values(|site: Seq<char>| block_line(site)).push(block_line(blocked@[i as int]@)));
        assert(line_texts(output@) =~= head + sites.take(i + 1).map_values(
            |site: Seq<char>| block_line(site),
        ));
        i = i + 1;
    }
    assert(sites.take(m as int) =~= sites);
    output.push(block_end_line());
    assert(line_texts(output@) =~= lines_with_block(line_texts(lines@), sites));
    join_with_newlines(&output)
}

/// Whether the hosts file holds a focusd block, that is, a start marker line.
pub fn hosts_active(lines: &Vec<String>) -> (active: bool)
    ensures
        active == has_block(line_texts(lines@)),
{
    let start = block_start_line();
    let n = lines.len();
    let mut k: usize = 0;
    while k < n
        invariant
            n == lines@.len(),
            k <= n,
            start@ == block_start(),
            forall|i: int| 0 <= i < k ==> lines@[i]@ != block_start(),
        decreases n - k,
    {
        if lines[k] == start {
            assert(line_texts(lines@)[k as int] == block_start());
            return true;
        }
        k = k + 1;
    }
    assert forall|i: int| 0 <= i < line_texts(lines@).len() implies line_texts(lines@)[i]
        != block_start() by {
        assert(line_texts(lines@)[i] == lines@[i]@);
    }
    false
}

/// What expiry does to the hosts file: `None` when it holds no focusd block and is left as it
/// is, otherwise the text without the block, to be written back.
pub fn release_block(lines: &Vec<String>) -> (text: Option<String>)
    ensures
        !has_block(line_texts(lines@)) ==> text is None,
        has_block(line_texts(lines@)) ==> (text matches Some(t) && t@ == join_lines(
            lines_outside_block(line_texts(lines@), false),
        )),
{
    if hosts_active(lines) {
        Some(hosts_remove(lines))
    } else {
        None
    }
}


/// No line is a block marker.
pub open spec fn marker_free(lines: Seq<Seq<char>>) -> bool {
    !lines.contains(block_start()) && !lines.contains(block_end())
}

proof fn lemma_block_line_not_marker(site: Seq<char>)
    ensures
        block_line(site) != block_start(),
        block_line(site) != block_end(),
{
    reveal_strlit("127.0.0.1\t");
    reveal_strlit("# --- focusd start ---");
    reveal_strlit("# --- focusd end ---");
    assert(block_line(site)[0] == '1');
    assert(block_start()[0] == '#');
    assert(block_end()[0] == '#');
}

proof fn lemma_markers_differ()
    ensures
        block_start() != block_end(),
{
    reveal_strlit("# --- focusd start ---");
    reveal_strlit("# --- focusd end ---");
    assert(block_start().len() != block_end().len());
}

/// Outside a block, marker-free lines are kept and the rest is read on from there.
proof fn lemma_outside_prefix(a: Seq<Seq<char>>, rest: Seq<Seq<char>>)
    requires
        marker_free(a),
    ensures
        lines_outside_block(a + rest, false) == a + lines_outside_block(rest, false),
    decreases a.len(),
{
    if a.len() > 0 {
        assert(a.contains(a[0]));
        let tail = a.drop_first();
        assert(marker_free(tail)) by {
            if tail.contains(block_start()) {
                let i = choose|i: int| 0 <= i < tail.len() && tail[i] == block_start();
                assert(a[i + 1] == block_start());
            }
            if tail.contains(block_end()) {
                let i = choose|i: int| 0 <= i < tail.len() && tail[i] == block_end();
                assert(a[i + 1] == block_end());
            }
        }
        lemma_outside_prefix(tail, rest);
        assert((a + rest).drop_first() =~= tail + rest);
        assert((a + rest)[0] == a[0]);
        assert(seq![a[0]] + (tail + lines_outside_block(rest, false)) =~= a
            + lines_outside_block(rest, false));
    } else {
        assert(a + rest =~= rest);
        assert(a + lines_outside_block(rest, false) =~= lines_outside_block(rest, false));
    }
}

/// Inside a block, lines are dropped up to and including the end marker.
proof fn lemma_inside_block(inner: Seq<Seq<char>>, rest: Seq<Seq<char>>)
    requires
        marker_free(inner),
    ensures
        lines_outside_block(inner + seq![block_end()] + rest, true) == lines_outside_block(
            rest,
            false,
        ),
    decreases inner.len(),
{
    let all = inner + seq![block_end()] + rest;
    lemma_markers_differ();
    if inner.len() > 0 {
        assert(inner.contains(inner[0]));
        let tail = inner.drop_first();
        assert(marker_free(tail)) by {
            if tail.contains(block_start()) {
                let i = choose|i: int| 0 <= i < tail.len() && tail[i] == block_start();
                assert(inner[i + 1] == block_start());
            }
            if tail.contains(block_end()) {
                let i = choose|i: int| 0 <= i < tail.len() && tail[i] == block_end();
                assert(inner[i + 1] == block_end());
            }
        }
        lemma_inside_block(tail, rest);
        assert(all.drop_first() =~= tail + seq![block_end()] + rest);
        assert(all[0] == inner[0]);
    } else {
        assert(all[0] == block_end());
        assert(all.drop_first() =~= rest);
    }
}

/// Removing the block after adding one gives back the lines that were there before, provided
/// that none of them was a block marker.
pub proof fn lemma_remove_after_add(lines: Seq<Seq<char>>, blocked: Seq<Seq<char>>)
    requires
        marker_free(lines),
    ensures
        lines_outside_block(lines_with_block(lines, blocked), false) == lines,
{
    let entries = blocked.map_values(|site: Seq<char>| block_line(site));
    assert(marker_free(entries)) by {
        if entries.contains(block_start()) {
            let i = choose|i: int| 0 <= i < entries.len() && entries[i] == block_start();
            lemma_block_line_not_marker(blocked[i]);
        }
        if entries.contains(block_end()) {
            let i = choose|i: int| 0 <= i < entries.len() && entries[i] == block_end();
            lemma_block_line_not_marker(blocked[i]);
        }
    }
    let block = seq![block_start()] + entries + seq![block_end()];
    assert(lines_with_block(lines, blocked) =~= lines + block);
    lemma_outside_prefix(lines, block);
    assert(block[0] == block_start());
    assert(block.drop_first() =~= entries + seq![block_end()] + Seq::<Seq<char>>::empty());
    lemma_inside_block(entries, Seq::<Seq<char>>::empty());
    assert(lines + Seq::<Seq<char>>::empty() =~= lines);
}

/// After adding the block, the hosts file holds one.
pub proof fn lemma_block_present_after_add(lines: Seq<Seq<char>>, blocked: Seq<Seq<char>>)
    ensures
        has_block(lines_with_block(lines, blocked)),
{
    let all = lines_with_block(lines, blocked);
    assert(all[lines.len() as int] == block_start());
}

/// Lines without markers are left as they are by the removal.
pub proof fn lemma_remove_keeps_marker_free(lines: Seq<Seq<char>>)
    requires
        marker_free(lines),
    ensures
        lines_outside_block(lines, false) == lines,
{
    lemma_outside_prefix(lines, Seq::<Seq<char>>::empty());
    assert(lines + Seq::<Seq<char>>::empty() =~= lines);
}

/// What the removal keeps holds no marker: the hosts file is left without a block.
pub proof fn lemma_remove_leaves_no_block(lines: Seq<Seq<char>>, in_block: bool)
    ensures
        marker_free(lines_outside_block(lines, in_block)),
        !has_block(lines_outside_block(lines, in_block)),
    decreases lines.len(),
{
    if lines.len() > 0 {
        let rest = lines.drop_first();
        lemma_remove_leaves_no_block(rest, true);
        lemma_remove_leaves_no_block(rest, false);
        let line = lines[0];
        if line != block_start() && line != block_end() && !in_block {
            let out = seq![line] + lines_outside_block(rest, false);
            let tail = lines_outside_block(rest, false);
            if out.contains(block_start()) {
                let i = choose|i: int| 0 <= i < out.len() && out[i] == block_start();
                assert(i > 0);
                assert(tail[i - 1] == block_start());
            }
            if out.contains(block_end()) {
                let i = choose|i: int| 0 <= i < out.len() && out[i] == block_end();
                assert(i > 0);
                assert(tail[i - 1] == block_end());
            }
        }
    }
}

/// Removing the block twice removes no more than removing it once.
pub proof fn lemma_remove_idempotent(lines: Seq<Seq<char>>)
    ensures
        lines_outside_block(lines_outside_block(lines, false), false) == lines_outside_block(
            lines,
            false,
        ),
{
    lemma_remove_leaves_no_block(lines, false);
    lemma_remove_keeps_marker_free(lines_outside_block(lines, false));
}


/// `String::push` appends one character to a string, as the standard library documents.
pub assume_specification[ String::push ](s: &mut String, ch: char)
    ensures
        final(s)@ == old(s)@.push(ch),
;

/// A line as it is read back: without the carriage return of a `\r\n` line ending.
pub open spec fn strip_cr(line: Seq<char>) -> Seq<char> {
    if line.len() > 0 && line.last() == '\r' {
        line.drop_last()
    } else {
        line
    }
}

/// The lines of the rest `text` of a file, `current` being the part of a line read so far:
/// each newline ends a line (and a `\r` just before it), and a last line without a newline
/// counts when it is not empty.
pub open spec fn lines_from(text: Seq<char>, current: Seq<char>) -> Seq<Seq<char>>
    decreases text.len(),
{
    if text.len() == 0 {
        if current.len() == 0 {
            seq![]
        } else {
            seq![current]
        }
    } else if text[0] == '\n' {
        seq![strip_cr(current)] + lines_from(text.drop_first(), seq![])
    } else {
        lines_from(text.drop_first(), current.push(text[0]))
    }
}

/// The lines of a file's text, as reading it line by line gives them.
pub open spec fn text_lines(text: Seq<char>) -> Seq<Seq<char>> {
    lines_from(text, seq![])
}

/// Splits a file's text into its lines: at each newline, dropping the newline and a carriage
/// return just before it; a last line without a newline is kept when it is not empty.
pub fn split_lines(text: &str) -> (lines: Vec<String>)
    ensures
        line_texts(lines@) == text_lines(text@),
{
    let mut lines: Vec<String> = Vec::new();
    // The line read so far is `current`, followed by a carriage return when `held_cr`: that
    // one is kept back until it is known not to end the line.
    let mut current = String::new();
    let mut held_cr = false;
    let ghost t = text@;
    assert(t.skip(0) =~= t);
    assert(line_texts(lines@) + lines_from(t, current@) =~= text_lines(t));
    for c in it: text.chars()
        invariant
            it.seq() == t,
            line_texts(lines@) + lines_from(
                t.skip(it.index()),
                if held_cr { current@.push('\r') } else { current@ },
            ) == text_lines(t),
            !held_cr ==> (current@.len() == 0 || current@.last() != '\r'),
    {
        let ghost rest = t.skip(it.index());
        let ghost read = if held_cr { current@.push('\r') } else { current@ };
        assert(rest[0] == c);
        assert(rest.drop_first() =~= t.skip(it.index() + 1));
        if c == '\n' {
            let ghost before = line_texts(lines@);
            assert(current@ == strip_cr(read));
            lines.push(current);
            current = String::new();
            held_cr = false;
            assert(line_texts(lines@) =~= before.push(strip_cr(read)));
            assert(before.push(strip_cr(read)) + lines_from(t.skip(it.index() + 1), seq![])
                =~= before + (seq![strip_cr(read)] + lines_from(t.skip(it.index() + 1), seq![])));
        } else if c == '\r' {
            if held_cr {
                current.push('\r');
            }
            held_cr = true;
            assert(current@.push('\r') == read.push(c));
        } else {
            if held_cr {
                current.push('\r');
                held_cr = false;
            }
            current.push(c);
            assert(current@ == read.push(c));
        }
    }
    if held_cr {
        current.push('\r');
    }
    assert(t.skip(t.len() as int) =~= Seq::<char>::empty());
    if !current.as_str().is_empty() {
        let ghost before = line_texts(lines@);
        lines.push(current);
        assert(line_texts(lines@) =~= before.push(current@));
        assert(before + seq![current@] =~= before.push(current@));
    } else {
        assert(line_texts(lines@) + Seq::<Seq<char>>::empty() =~= line_texts(lines@));
    }
    lines
}


/// A line that reads back as itself once written: it holds no newline and does not end with a
/// carriage return.
pub open spec fn clean_line(line: Seq<char>) -> bool {
    !line.contains('\n') && !(line.len() > 0 && line.last() == '\r')
}

/// Every line is clean.
pub open spec fn clean_lines(lines: Seq<Seq<char>>) -> bool {
    forall|i: int| 0 <= i < lines.len() ==> clean_line(#[trigger] lines[i])
}

proof fn lemma_lines_from_no_newline(a: Seq<char>, rest: Seq<char>, current: Seq<char>)
    requires
        !a.contains('\n'),
    ensures
        lines_from(a + rest, current) == lines_from(rest, current + a),
    decreases a.len(),
{
    if a.len() == 0 {
        assert(a + rest =~= rest);
        assert(current + a =~= current);
    } else {
        assert((a + rest)[0] == a[0]);
        assert((a + rest).drop_first() =~= a.drop_first() + rest);
        assert(!a.drop_first().contains('\n')) by {
            if a.drop_first().contains('\n') {
                let i = choose|i: int| 0 <= i < a.drop_first().len() && a.drop_first()[i] == '\n';
                assert(a[i + 1] == '\n');
            }
        }
        assert(a[0] != '\n');
        lemma_lines_from_no_newline(a.drop_first(), rest, current.push(a[0]));
        assert(current.push(a[0]) + a.drop_first() =~= current + a);
    }
}

proof fn lemma_join_front(lines: Seq<Seq<char>>)
    requires
        lines.len() >= 2,
    ensures
        join_lines(lines) == lines[0] + seq!['\n'] + join_lines(lines.drop_first()),
    decreases lines.len(),
{
    if lines.len() == 2 {
        assert(lines.drop_last().len() == 1);
        assert(lines.drop_first().len() == 1);
        assert(join_lines(lines.drop_last()) == lines[0]);
        assert(join_lines(lines.drop_first()) == lines[1]);
    } else {
        lemma_join_front(lines.drop_last());
        assert(lines.drop_last().drop_first() =~= lines.drop_first().drop_last());
        assert(lines.drop_first().last() == lines.last());
        assert(lines.drop_last()[0] == lines[0]);
    }
}

/// Written with newlines between them and read back line by line, clean lines come back as
/// they were, except that a last empty line is lost (the text then ends with a newline).
pub proof fn lemma_lines_read_back(lines: Seq<Seq<char>>)
    requires
        clean_lines(lines),
    ensures
        text_lines(join_lines(lines)) == if lines.len() > 0 && lines.last().len() == 0 {
            lines.drop_last()
        } else {
            lines
        },
    decreases lines.len(),
{
    if lines.len() == 1 {
        assert(clean_line(lines[0]));
        lemma_lines_from_no_newline(lines[0], seq![], seq![]);
        assert(lines[0] + Seq::<char>::empty() =~= lines[0]);
        assert(Seq::<char>::empty() + lines[0] =~= lines[0]);
        if lines[0].len() == 0 {
            assert(lines.drop_last() =~= Seq::<Seq<char>>::empty());
        } else {
            assert(seq![lines[0]] =~= lines);
        }
    } else if lines.len() >= 2 {
        let rest = lines.drop_first();
        assert(clean_lines(rest)) by {
            assert forall|i: int| 0 <= i < rest.len() implies clean_line(#[trigger] rest[i]) by {
                assert(rest[i] == lines[i + 1]);
            }
        }
        assert(clean_line(lines[0]));
        lemma_lines_read_back(rest);
        lemma_join_front(lines);
        let tail = join_lines(rest);
        assert(lines[0] + seq!['\n'] + tail =~= lines[0] + (seq!['\n'] + tail));
        lemma_lines_from_no_newline(lines[0], seq!['\n'] + tail, seq![]);
        assert(Seq::<char>::empty() + lines[0] =~= lines[0]);
        assert((seq!['\n'] + tail)[0] == '\n');
        assert((seq!['\n'] + tail).drop_first() =~= tail);
        assert(strip_cr(lines[0]) == lines[0]);
        if lines.last().len() == 0 {
            assert(seq![lines[0]] + rest.drop_last() =~= lines.drop_last());
        } else {
            assert(seq![lines[0]] + rest =~= lines);
        }
    }
}

/// The hosts file as the daemon writes it when a block starts, read back line by line, gives
/// exactly the lines it was written from, provided that the lines and the sites are clean:
/// so it holds a block, and removing the block from it gives the text of the lines it had
/// before, which, written and read back once more, holds no block.
pub proof fn lemma_block_file_round_trip(lines: Seq<Seq<char>>, blocked: Seq<Seq<char>>)
    requires
        clean_lines(lines),
        clean_lines(blocked),
        marker_free(lines),
    ensures
        text_lines(join_lines(lines_with_block(lines, blocked))) == lines_with_block(
            lines,
            blocked,
        ),
        has_block(text_lines(join_lines(lines_with_block(lines, blocked)))),
        join_lines(
            lines_outside_block(text_lines(join_lines(lines_with_block(lines, blocked))), false),
        ) == join_lines(lines),
        !has_block(text_lines(join_lines(lines))),
{
    let all = lines_with_block(lines, blocked);
    let entries = blocked.map_values(|site: Seq<char>| block_line(site));
    reveal_strlit("127.0.0.1\t");
    reveal_strlit("# --- focusd start ---");
    reveal_strlit("# --- focusd end ---");
    assert(clean_lines(all)) by {
        assert forall|i: int| 0 <= i < all.len() implies clean_line(#[trigger] all[i]) by {
            if i < lines.len() {
                assert(all[i] == lines[i]);
            } else if i == lines.len() {
                assert(all[i] == block_start());
                assert(!block_start().contains('\n')) by {
                    if block_start().contains('\n') {
                        let k = choose|k: int| 0 <= k < block_start().len() && block_start()[k] == '\n';
                        assert(false);
                    }
                }
            } else if i < lines.len() + 1 + blocked.len() {
                let site = blocked[i - lines.len() - 1];
                assert(all[i] == block_line(site));
                assert(clean_line(site));
                let prefix = "127.0.0.1\t"@;
                assert(!block_line(site).contains('\n')) by {
                    if block_line(site).contains('\n') {
                        let k = choose|k: int| 0 <= k < block_line(site).len() && block_line(site)[k] == '\n';
                        if k >= prefix.len() {
                            assert(site[k - prefix.len()] == '\n');
                        }
                    }
                }
                if site.len() > 0 {
                    assert(block_line(site).last() == site.last());
                }
            } else {
                assert(all[i] == block_end());
                assert(!block_end().contains('\n')) by {
                    if block_end().contains('\n') {
                        let k = choose|k: int| 0 <= k < block_end().len() && block_end()[k] == '\n';
                        assert(false);
                    }
                }
            }
        }
    }
    lemma_lines_read_back(all);
    assert(all.last() == block_end());
    lemma_block_present_after_add(lines, blocked);
    lemma_remove_after_add(lines, blocked);
    lemma_lines_read_back(lines);
    let back = text_lines(join_lines(lines));
    if back.contains(block_start()) {
        let k = choose|k: int| 0 <= k < back.len() && back[k] == block_start();
        assert(lines[k] == block_start());
        assert(lines.contains(block_start()));
    }
}


/// Adding the block keeps every line of the file as it was, in front and in order, whatever
/// the lines are (an earlier block included), then puts the start marker, one line
/// `127.0.0.1<tab><site>` for each blocked site in order, and the end marker.
pub proof fn lemma_add_keeps_lines(lines: Seq<Seq<char>>, blocked: Seq<Seq<char>>)
    ensures
        lines_with_block(lines, blocked).len() == lines.len() + blocked.len() + 2,
        lines_with_block(lines, blocked).take(lines.len() as int) == lines,
        lines_with_block(lines, blocked)[lines.len() as int] == "# --- focusd start ---"@,
        forall|i: int|
            0 <= i < blocked.len() ==> lines_with_block(lines, blocked)[lines.len() + 1 + i]
                == "127.0.0.1\t"@ + #[trigger] blocked[i],
        lines_with_block(lines, blocked).last() == "# --- focusd end ---"@,
{
    let all = lines_with_block(lines, blocked);
    assert(all.take(lines.len() as int) =~= lines);
}

} // verus!
