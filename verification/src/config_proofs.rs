//! Properties of the configuration grammar: which line decides a corner, and
//! what does not matter (layout, comments, the spelling of a key).

use crate::config::{
    is_ignored, line_entry, parse_value, slot_of, split_lines, strip_quotes, table_of,
    table_of_lines, ConfigError, SlotView, TableView,
};
use crate::corner::Corner;
use crate::text::{
    first_index, is_blank, is_space, lemma_first_index, lemma_first_index_unique,
    lemma_trim_end_keeps, lemma_trim_pad, lemma_trim_shape, lemma_trim_start_pad, trim, trim_end,
};
use vstd::prelude::*;

verus! {

/// Whether `line` assigns corner `c`.
pub open spec fn names(line: Seq<char>, c: Corner) -> bool {
    line_entry(line) matches Some((k, _)) && k == c
}

/// The slot that `line` assigns (meaningful when the line names a corner).
pub open spec fn assigned(line: Seq<char>) -> Option<SlotView> {
    match line_entry(line) {
        Some((_, slot)) => slot,
        None => None,
    }
}

/// Index of the last line that names `c`, or `-1` when none does.
pub open spec fn last_naming(lines: Seq<Seq<char>>, c: Corner) -> int
    decreases lines.len(),
{
    if lines.len() == 0 {
        -1
    } else if names(lines.last(), c) {
        lines.len() - 1
    } else {
        last_naming(lines.drop_last(), c)
    }
}

/// The last line naming a corner decides its slot; a corner that no line
/// names has none.
pub proof fn lemma_last_naming(lines: Seq<Seq<char>>, c: Corner)
    ensures
        -1 <= last_naming(lines, c) < lines.len(),
        forall|j: int| last_naming(lines, c) < j < lines.len() ==> !names(#[trigger] lines[j], c),
        last_naming(lines, c) >= 0 ==> names(lines[last_naming(lines, c)], c) && slot_of(lines, c)
            == assigned(lines[last_naming(lines, c)]),
        last_naming(lines, c) < 0 ==> slot_of(lines, c) is None,
    decreases lines.len(),
{
    if lines.len() > 0 && !names(lines.last(), c) {
        let rest = lines.drop_last();
        lemma_last_naming(rest, c);
        assert forall|j: int| last_naming(lines, c) < j < lines.len() implies !names(
            #[trigger] lines[j],
            c,
        ) by {
            if j < lines.len() - 1 {
                assert(lines[j] == rest[j]);
            }
        }
    }
}

/// When several lines name the same corner, the last of them wins.
pub proof fn lemma_last_assignment_wins(lines: Seq<Seq<char>>, c: Corner, i: int)
    requires
        0 <= i < lines.len(),
        names(lines[i], c),
        forall|j: int| i < j < lines.len() ==> !names(#[trigger] lines[j], c),
    ensures
        slot_of(lines, c) == assigned(lines[i]),
{
    lemma_last_naming(lines, c);
    let l = last_naming(lines, c);
    if l < i {
        assert(!names(lines[i], c));
    }
}

/// Whether line `i` is the last of `lines` to name corner `c`.
pub open spec fn decides(lines: Seq<Seq<char>>, c: Corner, i: int) -> bool {
    &&& 0 <= i < lines.len()
    &&& names(lines[i], c)
    &&& forall|j: int| i < j < lines.len() ==> !names(#[trigger] lines[j], c)
}

/// A text that gives every corner a well-formed last entry loads, and the
/// table holds exactly the command and flag of each of those entries,
/// wherever in the text they stand.
pub proof fn lemma_complete_text_loads(text: Seq<char>, tl: int, tr: int, bl: int, br: int)
    requires
        decides(split_lines(text), Corner::TopLeft, tl),
        decides(split_lines(text), Corner::TopRight, tr),
        decides(split_lines(text), Corner::BottomLeft, bl),
        decides(split_lines(text), Corner::BottomRight, br),
        assigned(split_lines(text)[tl]) is Some,
        assigned(split_lines(text)[tr]) is Some,
        assigned(split_lines(text)[bl]) is Some,
        assigned(split_lines(text)[br]) is Some,
    ensures
        table_of(text) == Ok::<TableView, ConfigError>(
            TableView {
                top_left: assigned(split_lines(text)[tl])->0,
                top_right: assigned(split_lines(text)[tr])->0,
                bottom_left: assigned(split_lines(text)[bl])->0,
                bottom_right: assigned(split_lines(text)[br])->0,
            },
        ),
{
    let lines = split_lines(text);
    lemma_last_assignment_wins(lines, Corner::TopLeft, tl);
    lemma_last_assignment_wins(lines, Corner::TopRight, tr);
    lemma_last_assignment_wins(lines, Corner::BottomLeft, bl);
    lemma_last_assignment_wins(lines, Corner::BottomRight, br);
}

/// A corner that no line names stays without a slot.
pub proof fn lemma_unnamed_corner_has_no_slot(lines: Seq<Seq<char>>, c: Corner)
    requires
        forall|j: int| 0 <= j < lines.len() ==> !names(#[trigger] lines[j], c),
    ensures
        slot_of(lines, c) is None,
{
    lemma_last_naming(lines, c);
}

/// A configuration text in which some corner is named by no line, or whose
/// last line naming it is malformed, fails as incomplete; and only such texts fail.
pub proof fn lemma_incomplete_iff(text: Seq<char>)
    ensures
        table_of(text) is Err <==> exists|c: Corner| slot_of(split_lines(text), c) is None,
        table_of(text) is Err ==> table_of(text) == Err::<TableView, ConfigError>(
            ConfigError::Incomplete,
        ),
{
    let lines = split_lines(text);
    if exists|c: Corner| slot_of(lines, c) is None {
        let c = choose|c: Corner| slot_of(lines, c) is None;
        match c {
            Corner::TopLeft => {},
            Corner::TopRight => {},
            Corner::BottomLeft => {},
            Corner::BottomRight => {},
        }
    }
    if table_of(text) is Err {
        if slot_of(lines, Corner::TopLeft) is None {
        } else if slot_of(lines, Corner::TopRight) is None {
        } else if slot_of(lines, Corner::BottomLeft) is None {
        } else {
            assert(slot_of(lines, Corner::BottomRight) is None);
        }
    }
}

/// A configuration text that lacks a line for some corner fails as incomplete.
pub proof fn lemma_missing_corner_is_incomplete(text: Seq<char>, c: Corner)
    requires
        forall|j: int|
            0 <= j < split_lines(text).len() ==> !names(#[trigger] split_lines(text)[j], c),
    ensures
        table_of(text) == Err::<TableView, ConfigError>(ConfigError::Incomplete),
{
    lemma_unnamed_corner_has_no_slot(split_lines(text), c);
    lemma_incomplete_iff(text);
}

/// Inserting a line that assigns nothing leaves every slot as it was.
pub proof fn lemma_unkeyed_line_is_irrelevant(
    lines: Seq<Seq<char>>,
    i: int,
    line: Seq<char>,
    c: Corner,
)
    requires
        0 <= i <= lines.len(),
        line_entry(line) is None,
    ensures
        slot_of(lines.insert(i, line), c) == slot_of(lines, c),
    decreases lines.len(),
{
    let grown = lines.insert(i, line);
    if i == lines.len() {
        assert(grown.last() == line);
        assert(grown.drop_last() =~= lines);
    } else {
        assert(grown.last() == lines.last());
        assert(grown.drop_last() =~= lines.drop_last().insert(i, line));
        lemma_unkeyed_line_is_irrelevant(lines.drop_last(), i, line, c);
    }
}

/// The table does not depend on blank lines and comment lines: adding one
/// anywhere changes nothing.
pub proof fn lemma_ignored_line_is_irrelevant(lines: Seq<Seq<char>>, i: int, line: Seq<char>)
    requires
        0 <= i <= lines.len(),
        is_ignored(line),
    ensures
        table_of_lines(lines.insert(i, line)) == table_of_lines(lines),
{
    lemma_unkeyed_line_is_irrelevant(lines, i, line, Corner::TopLeft);
    lemma_unkeyed_line_is_irrelevant(lines, i, line, Corner::TopRight);
    lemma_unkeyed_line_is_irrelevant(lines, i, line, Corner::BottomLeft);
    lemma_unkeyed_line_is_irrelevant(lines, i, line, Corner::BottomRight);
}

/// The slot of a corner named by at most one line does not depend on the
/// order of the lines.
pub proof fn lemma_slot_order_irrelevant(a: Seq<Seq<char>>, b: Seq<Seq<char>>, c: Corner)
    requires
        a.to_multiset() == b.to_multiset(),
        forall|i: int, j: int|
            0 <= i < a.len() && 0 <= j < a.len() && #[trigger] names(a[i], c) && #[trigger] names(
                a[j],
                c,
            ) ==> i == j,
    ensures
        slot_of(a, c) == slot_of(b, c),
{
    a.to_multiset_ensures();
    b.to_multiset_ensures();
    lemma_last_naming(a, c);
    lemma_last_naming(b, c);
    let la = last_naming(a, c);
    let lb = last_naming(b, c);
    if lb >= 0 {
        assert(b.contains(b[lb]));
        assert(b.to_multiset().count(b[lb]) > 0);
        assert(a.contains(b[lb]));
        let i = choose|i: int| 0 <= i < a.len() && a[i] == b[lb];
        assert(names(a[i], c));
        if la != i {
            assert(names(a[la], c));
        }
    } else if la >= 0 {
        assert(a.contains(a[la]));
        assert(a.to_multiset().count(a[la]) > 0);
        assert(b.contains(a[la]));
        let j = choose|j: int| 0 <= j < b.len() && b[j] == a[la];
        assert(names(b[j], c));
    }
}

/// The table does not depend on the order of the lines, as long as no corner
/// is named twice.
pub proof fn lemma_line_order_is_irrelevant(a: Seq<Seq<char>>, b: Seq<Seq<char>>)
    requires
        a.to_multiset() == b.to_multiset(),
        forall|c: Corner, i: int, j: int|
            0 <= i < a.len() && 0 <= j < a.len() && #[trigger] names(a[i], c) && #[trigger] names(
                a[j],
                c,
            ) ==> i == j,
    ensures
        table_of_lines(a) == table_of_lines(b),
{
    lemma_slot_order_irrelevant(a, b, Corner::TopLeft);
    lemma_slot_order_irrelevant(a, b, Corner::TopRight);
    lemma_slot_order_irrelevant(a, b, Corner::BottomLeft);
    lemma_slot_order_irrelevant(a, b, Corner::BottomRight);
}

/// Two texts whose lines are the same up to order define the same table,
/// as long as no corner is named twice.
pub proof fn lemma_text_order_is_irrelevant(a: Seq<char>, b: Seq<char>)
    requires
        split_lines(a).to_multiset() == split_lines(b).to_multiset(),
        forall|c: Corner, i: int, j: int|
            0 <= i < split_lines(a).len() && 0 <= j < split_lines(a).len() && #[trigger] names(
                split_lines(a)[i],
                c,
            ) && #[trigger] names(split_lines(a)[j], c) ==> i == j,
    ensures
        table_of(a) == table_of(b),
{
    lemma_line_order_is_irrelevant(split_lines(a), split_lines(b));
}

/// The lines of two texts joined by a newline are the lines of the first
/// followed by the lines of the second.
pub proof fn lemma_split_lines_concat(a: Seq<char>, b: Seq<char>)
    ensures
        split_lines(a + seq!['\n'] + b) == split_lines(a) + split_lines(b),
    decreases a.len(),
{
    let s = a + seq!['\n'] + b;
    lemma_first_index(a, '\n');
    let i = first_index(a, '\n');
    assert(s[a.len() as int] == '\n');
    if i < a.len() {
        assert(s[i] == a[i]);
        assert forall|k: int| 0 <= k < i implies s[k] != '\n' by {
            assert(s[k] == a[k]);
        }
        lemma_first_index_unique(s, '\n', i);
        let tail = a.subrange(i + 1, a.len() as int);
        assert(s.subrange(0, i) =~= a.subrange(0, i));
        assert(s.subrange(i + 1, s.len() as int) =~= tail + seq!['\n'] + b);
        lemma_split_lines_concat(tail, b);
        assert(seq![a.subrange(0, i)] + (split_lines(tail) + split_lines(b)) =~= (seq![
            a.subrange(0, i),
        ] + split_lines(tail)) + split_lines(b));
    } else {
        assert forall|k: int| 0 <= k < a.len() implies s[k] != '\n' by {
            assert(s[k] == a[k]);
        }
        lemma_first_index_unique(s, '\n', a.len() as int);
        assert(s.subrange(0, a.len() as int) =~= a);
        assert(s.subrange(a.len() as int + 1, s.len() as int) =~= b);
    }
}

/// A text without a newline is one line.
pub proof fn lemma_split_single_line(line: Seq<char>)
    requires
        !line.contains('\n'),
    ensures
        split_lines(line) == seq![line],
{
    lemma_first_index(line, '\n');
    let i = first_index(line, '\n');
    if i < line.len() {
        assert(line.contains(line[i]));
    }
}

/// A comment or blank line between two parts of a text does not change the
/// table that the text defines.
pub proof fn lemma_ignored_line_in_text(before: Seq<char>, line: Seq<char>, after: Seq<char>)
    requires
        is_ignored(line),
        !line.contains('\n'),
    ensures
        table_of(before + seq!['\n'] + line + seq!['\n'] + after) == table_of(
            before + seq!['\n'] + after,
        ),
{
    let head = split_lines(before);
    let tail = split_lines(after);
    lemma_split_single_line(line);
    lemma_split_lines_concat(line, after);
    lemma_split_lines_concat(before, line + seq!['\n'] + after);
    lemma_split_lines_concat(before, after);
    assert(before + seq!['\n'] + line + seq!['\n'] + after =~= before + seq!['\n'] + (line
        + seq!['\n'] + after));
    assert(head + (seq![line] + tail) =~= (head + tail).insert(head.len() as int, line));
    lemma_ignored_line_is_irrelevant(head + tail, head.len() as int, line);
}

/// A value splits at its first comma only: whatever follows it, further
/// commas included, is the enabled field.
pub proof fn lemma_first_comma_splits(command: Seq<char>, flag: Seq<char>)
    requires
        !command.contains(','),
    ensures
        parse_value(command + seq![','] + flag) == Some(
            SlotView { command: strip_quotes(trim(command)), enabled: trim(flag) == seq!['1'] },
        ),
{
    let v = command + seq![','] + flag;
    let n = command.len() as int;
    assert(v[n] == ',');
    assert forall|k: int| 0 <= k < n implies v[k] != ',' by {
        assert(v[k] == command[k]);
        assert(command.contains(command[k]));
    }
    lemma_first_index_unique(v, ',', n);
    assert(v.subrange(0, n) =~= command);
    assert(v.subrange(n + 1, v.len() as int) =~= flag);
}

/// A value defines a slot exactly when it holds a comma.
pub proof fn lemma_value_needs_comma(v: Seq<char>)
    ensures
        parse_value(v) is Some <==> v.contains(','),
{
    lemma_first_index(v, ',');
    let i = first_index(v, ',');
    if i < v.len() {
        assert(v.contains(v[i]));
    }
    if v.contains(',') {
        let k = choose|k: int| 0 <= k < v.len() && v[k] == ',';
        assert(i <= k);
    }
}

/// A line made of whitespace, a key, and more text trims to the key followed
/// by that text without its trailing whitespace.
proof fn lemma_trim_keyed(pad: Seq<char>, key: Seq<char>, rest: Seq<char>)
    requires
        is_blank(pad),
        key.len() > 0,
        !is_space(key[0]),
        !is_space(key.last()),
    ensures
        trim(pad + key + rest) == key + trim_end(rest),
{
    assert(pad + key + rest =~= pad + (key + rest));
    assert((key + rest)[0] == key[0]);
    lemma_trim_start_pad(pad, key + rest);
    lemma_trim_end_keeps(key, rest);
}

/// The legacy keys are synonyms: a line spelled with `LEFT_CORNER=` assigns
/// what the same line spelled with `TOP_LEFT=` assigns, and likewise
/// `RIGHT_CORNER=` and `TOP_RIGHT=`.
pub proof fn lemma_legacy_key_is_synonym(pad: Seq<char>, rest: Seq<char>)
    requires
        is_blank(pad),
    ensures
        line_entry(pad + "TOP_LEFT="@ + rest) == Some(
            (Corner::TopLeft, parse_value(trim_end(rest))),
        ),
        line_entry(pad + "LEFT_CORNER="@ + rest) == line_entry(pad + "TOP_LEFT="@ + rest),
        line_entry(pad + "TOP_RIGHT="@ + rest) == Some(
            (Corner::TopRight, parse_value(trim_end(rest))),
        ),
        line_entry(pad + "RIGHT_CORNER="@ + rest) == line_entry(pad + "TOP_RIGHT="@ + rest),
{
    reveal_strlit("TOP_LEFT=");
    reveal_strlit("LEFT_CORNER=");
    reveal_strlit("TOP_RIGHT=");
    reveal_strlit("RIGHT_CORNER=");
    let tail = trim_end(rest);
    let tl = "TOP_LEFT="@;
    let lc = "LEFT_CORNER="@;
    let tr = "TOP_RIGHT="@;
    let rc = "RIGHT_CORNER="@;
    lemma_trim_keyed(pad, tl, rest);
    lemma_trim_keyed(pad, lc, rest);
    lemma_trim_keyed(pad, tr, rest);
    lemma_trim_keyed(pad, rc, rest);
    assert((tl + tail).subrange(0, tl.len() as int) =~= tl);
    assert((tl + tail).skip(tl.len() as int) =~= tail);
    assert((tl + tail)[0] == tl[0]);
    assert((lc + tail).subrange(0, lc.len() as int) =~= lc);
    assert((lc + tail).skip(lc.len() as int) =~= tail);
    assert((lc + tail)[0] == lc[0]);
    assert(!tl.is_prefix_of(lc + tail)) by {
        if tl.is_prefix_of(lc + tail) {
            assert((lc + tail).subrange(0, tl.len() as int)[0] == tl[0]);
        }
    }
    assert((tr + tail).subrange(0, tr.len() as int) =~= tr);
    assert((tr + tail).skip(tr.len() as int) =~= tail);
    assert((tr + tail)[0] == tr[0]);
    assert((tr + tail)[4] == tr[4]);
    assert(!tl.is_prefix_of(tr + tail)) by {
        if tl.is_prefix_of(tr + tail) {
            assert((tr + tail).subrange(0, tl.len() as int)[4] == tl[4]);
        }
    }
    assert(!lc.is_prefix_of(tr + tail)) by {
        if lc.is_prefix_of(tr + tail) {
            assert((tr + tail).subrange(0, lc.len() as int)[0] == lc[0]);
        }
    }
    assert((rc + tail).subrange(0, rc.len() as int) =~= rc);
    assert((rc + tail).skip(rc.len() as int) =~= tail);
    assert((rc + tail)[0] == rc[0]);
    assert(!tl.is_prefix_of(rc + tail)) by {
        if tl.is_prefix_of(rc + tail) {
            assert((rc + tail).subrange(0, tl.len() as int)[0] == tl[0]);
        }
    }
    assert(!lc.is_prefix_of(rc + tail)) by {
        if lc.is_prefix_of(rc + tail) {
            assert((rc + tail).subrange(0, lc.len() as int)[0] == lc[0]);
        }
    }
    assert(!tr.is_prefix_of(rc + tail)) by {
        if tr.is_prefix_of(rc + tail) {
            assert((rc + tail).subrange(0, tr.len() as int)[0] == tr[0]);
        }
    }
}

/// Lines that assign the same things define the same slots.
pub proof fn lemma_same_entries_same_slot(a: Seq<Seq<char>>, b: Seq<Seq<char>>, c: Corner)
    requires
        a.len() == b.len(),
        forall|i: int| 0 <= i < a.len() ==> line_entry(#[trigger] a[i]) == line_entry(b[i]),
    ensures
        slot_of(a, c) == slot_of(b, c),
    decreases a.len(),
{
    if a.len() > 0 {
        let a0 = a.drop_last();
        let b0 = b.drop_last();
        assert(line_entry(a[a.len() - 1]) == line_entry(b[a.len() - 1]));
        assert forall|i: int| 0 <= i < a0.len() implies line_entry(#[trigger] a0[i]) == line_entry(
            b0[i],
        ) by {
            assert(line_entry(a[i]) == line_entry(b[i]));
        }
        lemma_same_entries_same_slot(a0, b0, c);
    }
}

/// Respelling a `LEFT_CORNER=` line with `TOP_LEFT=` leaves the table as it
/// was; so the two keys are interchangeable, and of several lines for the
/// top-left corner the last one decides, whichever key each uses.
pub proof fn lemma_left_corner_interchangeable(
    lines: Seq<Seq<char>>,
    i: int,
    pad: Seq<char>,
    rest: Seq<char>,
)
    requires
        0 <= i < lines.len(),
        is_blank(pad),
        lines[i] == pad + "LEFT_CORNER="@ + rest,
    ensures
        table_of_lines(lines.update(i, pad + "TOP_LEFT="@ + rest)) == table_of_lines(lines),
{
    lemma_legacy_key_is_synonym(pad, rest);
    let other = lines.update(i, pad + "TOP_LEFT="@ + rest);
    lemma_same_entries_same_slot(lines, other, Corner::TopLeft);
    lemma_same_entries_same_slot(lines, other, Corner::TopRight);
    lemma_same_entries_same_slot(lines, other, Corner::BottomLeft);
    lemma_same_entries_same_slot(lines, other, Corner::BottomRight);
}

/// Respelling a `RIGHT_CORNER=` line with `TOP_RIGHT=` leaves the table as it was.
pub proof fn lemma_right_corner_interchangeable(
    lines: Seq<Seq<char>>,
    i: int,
    pad: Seq<char>,
    rest: Seq<char>,
)
    requires
        0 <= i < lines.len(),
        is_blank(pad),
        lines[i] == pad + "RIGHT_CORNER="@ + rest,
    ensures
        table_of_lines(lines.update(i, pad + "TOP_RIGHT="@ + rest)) == table_of_lines(lines),
{
    lemma_legacy_key_is_synonym(pad, rest);
    let other = lines.update(i, pad + "TOP_RIGHT="@ + rest);
    lemma_same_entries_same_slot(lines, other, Corner::TopLeft);
    lemma_same_entries_same_slot(lines, other, Corner::TopRight);
    lemma_same_entries_same_slot(lines, other, Corner::BottomLeft);
    lemma_same_entries_same_slot(lines, other, Corner::BottomRight);
}

/// Whitespace around a value does not change what it defines.
pub proof fn lemma_value_ignores_outer_whitespace(v: Seq<char>)
    ensures
        parse_value(trim(v)) == parse_value(v),
{
    let (a, b) = lemma_trim_shape(v);
    let t = v.subrange(a, b);
    let n = v.len() as int;
    lemma_first_index(v, ',');
    let i = first_index(v, ',');
    if i < n {
        if i < a {
            assert(is_space(v.subrange(0, a)[i]));
        }
        if i >= b {
            assert(is_space(v.subrange(b, n)[i - b]));
        }
        assert(t[i - a] == ',');
        assert forall|k: int| 0 <= k < i - a implies t[k] != ',' by {
            assert(t[k] == v[a + k]);
        }
        lemma_first_index_unique(t, ',', i - a);
        let empty = Seq::<char>::empty();
        assert(t.subrange(0, i - a) =~= v.subrange(a, i));
        assert(v.subrange(0, i) =~= v.subrange(0, a) + v.subrange(a, i) + empty);
        lemma_trim_pad(v.subrange(0, a), v.subrange(a, i), empty);
        assert(t.subrange(i - a + 1, t.len() as int) =~= v.subrange(i + 1, b));
        assert(v.subrange(i + 1, n) =~= empty + v.subrange(i + 1, b) + v.subrange(b, n));
        lemma_trim_pad(empty, v.subrange(i + 1, b), v.subrange(b, n));
    } else {
        assert forall|k: int| 0 <= k < t.len() implies t[k] != ',' by {
            assert(t[k] == v[a + k]);
        }
        lemma_first_index_unique(t, ',', t.len() as int);
    }
}

} // verus!
