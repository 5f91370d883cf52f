//! What the rows of a sprite table promise.

use crate::spr_action_sql::{
    command_step, find_record, frame_sum, frame_total, group_line, group_rows, groups_of,
    is_supported, line_tokens, number_prefix, row_text, rows_text, sanitized, separates,
    table_groups, table_lines, table_rows, tokens_of_lines, GroupModel, RowState, SqlRecord,
};
use crate::text::{
    decimal, is_digit, lemma_decimal, lemma_digit_run_is, lines_of, split_of,
};
use crate::text_laws::{law_number, law_split, law_split_once};
use vstd::prelude::*;

verus! {

/// A text that does not go on with a digit.
pub open spec fn no_digit_next(s: Seq<char>) -> bool {
    s.len() == 0 || !is_digit(s[0])
}

/// A number with anything but a digit behind it is read as that number where it fits
/// 32 bits, and a text that begins with no digit as none.
pub proof fn law_number_prefix(n: nat, rest: Seq<char>)
    requires
        no_digit_next(rest),
    ensures
        number_prefix(decimal(n) + rest) == (if n <= u32::MAX {
            Some(n as u32)
        } else {
            None
        }),
        number_prefix(rest) is None,
{
    let d = decimal(n);
    let t = d + rest;
    lemma_decimal(n);
    law_number(n, Seq::empty(), u32::MAX as nat);
    assert forall|i: int| 0 <= i < d.len() implies is_digit(#[trigger] t[i]) by {
        assert(is_digit(d[i]));
    }
    if rest.len() > 0 {
        assert(t[d.len() as int] == rest[0]);
    }
    lemma_digit_run_is(t, d.len());
    assert(t.take(d.len() as int) == d);
    lemma_digit_run_is(rest, 0);
}

/// The actions that have rows.
pub proof fn law_supported_actions(code: u32)
    ensures
        is_supported(code) <==> seq![
            0u32, 1, 4, 5, 11, 12, 17, 18, 19, 20, 21, 24, 25, 28, 29, 30, 31, 40, 41, 46, 47, 50,
            51, 54, 55, 58, 59, 62, 63, 66, 67,
        ].contains(code),
{
    let s = seq![
        0u32, 1, 4, 5, 11, 12, 17, 18, 19, 20, 21, 24, 25, 28, 29, 30, 31, 40, 41, 46, 47, 50, 51,
        54, 55, 58, 59, 62, 63, 66, 67,
    ];
    assert(s.len() == 31);
    assert(s[0] == 0 && s[1] == 1 && s[2] == 4 && s[3] == 5 && s[4] == 11 && s[5] == 12);
    assert(s[6] == 17 && s[7] == 18 && s[8] == 19 && s[9] == 20 && s[10] == 21 && s[11] == 24);
    assert(s[12] == 25 && s[13] == 28 && s[14] == 29 && s[15] == 30 && s[16] == 31 && s[17] == 40);
    assert(s[18] == 41 && s[19] == 46 && s[20] == 47 && s[21] == 50 && s[22] == 51 && s[23] == 54);
    assert(s[24] == 55 && s[25] == 58 && s[26] == 59 && s[27] == 62 && s[28] == 63 && s[29] == 66);
    assert(s[30] == 67);
}

proof fn lemma_find(records: Seq<SqlRecord>, spr: u32, act: u32, i: int)
    requires
        0 <= i < records.len(),
        records[i].spr_id == spr && records[i].act_id == act,
        forall|j: int|
            0 <= j < i ==> (#[trigger] records[j]).spr_id != spr || records[j].act_id != act,
    ensures
        find_record(records, spr, act) == Some(records[i]),
    decreases i,
{
    if i > 0 {
        let t = records.drop_first();
        assert(records[0].spr_id != spr || records[0].act_id != act);
        assert(t[i - 1] == records[i]);
        assert forall|j: int| 0 <= j < i - 1 implies (#[trigger] t[j]).spr_id != spr || t[j].act_id
            != act by {
            assert(t[j] == records[j + 1]);
        }
        lemma_find(t, spr, act, i - 1);
    }
}

proof fn lemma_find_none(records: Seq<SqlRecord>, spr: u32, act: u32)
    requires
        forall|j: int|
            0 <= j < records.len() ==> (#[trigger] records[j]).spr_id != spr || records[j].act_id
                != act,
    ensures
        find_record(records, spr, act) is None,
    decreases records.len(),
{
    if records.len() > 0 {
        let t = records.drop_first();
        assert(records[0].spr_id != spr || records[0].act_id != act);
        assert forall|j: int| 0 <= j < t.len() implies (#[trigger] t[j]).spr_id != spr || t[j].act_id
            != act by {
            assert(t[j] == records[j + 1]);
        }
        lemma_find_none(t, spr, act);
    }
}

/// A number, an equals sign and another number: the action, and the sprite that it is
/// taken from.
pub open spec fn reference_token(act: u32, a: Seq<char>, target: u32, b: Seq<char>) -> Seq<char> {
    decimal(act as nat) + a + seq!['='] + (decimal(target as nat) + b)
}

proof fn lemma_no_equals(n: nat, a: Seq<char>)
    requires
        !a.contains('='),
    ensures
        !(decimal(n) + a).contains('='),
{
    let d = decimal(n);
    let t = d + a;
    lemma_decimal(n);
    if t.contains('=') {
        let i = choose|i: int| 0 <= i < t.len() && t[i] == '=';
        if i < d.len() {
            assert(is_digit(d[i]));
        } else {
            assert(a[i - d.len()] == '=');
            assert(a.contains('='));
        }
    }
}

/// A reference adds one row to the group that it stands in. Its action is the one that
/// the reference names, and both its frame count and its frame rate are those of the
/// first row of that sprite and action, whatever rate holds in the group. Nothing is
/// added where there is no such row.
pub proof fn law_reference_copies(
    st: RowState,
    spr_id: u32,
    command: Seq<Seq<char>>,
    act: u32,
    a: Seq<char>,
    target: u32,
    b: Seq<char>,
    i: int,
)
    requires
        command.len() > 0,
        command[0] == reference_token(act, a, target, b),
        no_digit_next(a) && no_digit_next(b),
        !a.contains('='),
    ensures
        0 <= i < st.records.len() && st.records[i].spr_id == target && st.records[i].act_id == act
            && (forall|j: int|
            0 <= j < i ==> (#[trigger] st.records[j]).spr_id != target || st.records[j].act_id
                != act) ==> {
            let after = command_step(st, spr_id, command);
            &&& after.framerate == st.framerate
            &&& after.records.len() == st.records.len() + 1
            &&& forall|j: int| 0 <= j < st.records.len() ==> after.records[j] == st.records[j]
            &&& after.records[st.records.len() as int].spr_id == spr_id
            &&& after.records[st.records.len() as int].act_id == act
            &&& after.records[st.records.len() as int].framecount == st.records[i].framecount
            &&& after.records[st.records.len() as int].framerate == st.records[i].framerate
        },
        (forall|j: int|
            0 <= j < st.records.len() ==> (#[trigger] st.records[j]).spr_id != target
                || st.records[j].act_id != act) ==> command_step(st, spr_id, command) == st,
{
    let l = decimal(act as nat) + a;
    let r = decimal(target as nat) + b;
    let t = l + seq!['='] + r;
    lemma_no_equals(act as nat, a);
    law_split_once(l, '=', r);
    law_number_prefix(act as nat, a);
    law_number_prefix(target as nat, b);
    assert(t[l.len() as int] == '=');
    assert(t.contains('='));
    if 0 <= i < st.records.len() && st.records[i].spr_id == target && st.records[i].act_id == act
        && (forall|j: int|
        0 <= j < i ==> (#[trigger] st.records[j]).spr_id != target || st.records[j].act_id != act) {
        lemma_find(st.records, target, act, i);
    }
    if forall|j: int|
        0 <= j < st.records.len() ==> (#[trigger] st.records[j]).spr_id != target
            || st.records[j].act_id != act {
        lemma_find_none(st.records, target, act);
    }
}

/// A reference without a number on one of its sides adds nothing.
pub proof fn law_broken_reference(
    st: RowState,
    spr_id: u32,
    command: Seq<Seq<char>>,
    a: Seq<char>,
    b: Seq<char>,
)
    requires
        command.len() > 0,
        !a.contains('='),
        command[0] == a + seq!['='] + b,
        no_digit_next(a) || no_digit_next(b),
    ensures
        command_step(st, spr_id, command) == st,
{
    law_split_once(a, '=', b);
    if no_digit_next(a) {
        law_number_prefix(0, a);
    } else {
        law_number_prefix(0, b);
    }
    assert((a + seq!['='] + b)[a.len() as int] == '=');
}

/// The command 110 sets the frame rate of its group to the number behind it, and adds
/// no row; without a number it does nothing.
pub proof fn law_rate_command(
    st: RowState,
    spr_id: u32,
    command: Seq<Seq<char>>,
    a: Seq<char>,
    rate: u32,
    b: Seq<char>,
)
    requires
        command.len() > 0,
        command[0] == decimal(110) + a,
        no_digit_next(a) && no_digit_next(b),
        !a.contains('='),
    ensures
        command_step(st, spr_id, command).records == st.records,
        command.len() > 1 && command[1] == decimal(rate as nat) + b ==> command_step(
            st,
            spr_id,
            command,
        ).framerate == rate,
        command.len() == 1 || no_digit_next(command[1]) ==> command_step(st, spr_id, command) == st,
{
    lemma_no_equals(110, a);
    law_number_prefix(110, a);
    law_number_prefix(rate as nat, b);
    if command.len() > 1 && no_digit_next(command[1]) {
        law_number_prefix(0, command[1]);
    }
}

/// An action of the list adds one row to its group, with its own frame count and the
/// frame rate that holds there; every other action adds nothing.
pub proof fn law_action_row(
    st: RowState,
    spr_id: u32,
    command: Seq<Seq<char>>,
    act: u32,
    a: Seq<char>,
)
    requires
        command.len() > 0,
        command[0] == decimal(act as nat) + a,
        no_digit_next(a),
        !a.contains('='),
        act != 110,
    ensures
        is_supported(act) ==> command_step(st, spr_id, command) == (RowState {
            records: st.records.push(
                SqlRecord {
                    spr_id,
                    act_id: act,
                    framecount: frame_total(command),
                    framerate: st.framerate,
                },
            ),
            framerate: st.framerate,
        }),
        !is_supported(act) ==> command_step(st, spr_id, command) == st,
{
    lemma_no_equals(act as nat, a);
    law_number_prefix(act as nat, a);
}

/// A command that begins with neither a number nor a reference does nothing.
pub proof fn law_other_commands(st: RowState, spr_id: u32, command: Seq<Seq<char>>)
    requires
        command.len() == 0 || (no_digit_next(command[0]) && !command[0].contains('=')),
    ensures
        command_step(st, spr_id, command) == st,
{
    if command.len() > 0 {
        law_number_prefix(0, command[0]);
    }
}

proof fn lemma_sum_push(command: Seq<Seq<char>>, t: Seq<char>, idx: int)
    requires
        0 <= idx,
        idx <= command.len() + 2,
    ensures
        frame_sum(command.push(t), idx) == frame_sum(command, idx) + (if (command.len() - idx) % 3
            == 0 && idx <= command.len() {
            match number_prefix(t) {
                Some(v) => v as nat,
                None => 0,
            }
        } else {
            0
        }),
    decreases command.len() + 3 - idx,
{
    let c = command.push(t);
    if idx < command.len() {
        lemma_sum_push(command, t, idx + 3);
        assert(c[idx] == command[idx]);
        if idx + 3 > command.len() {
            assert((command.len() - idx) % 3 != 0);
        }
    } else if idx == command.len() {
        assert(c[idx] == t);
        assert(frame_sum(c, idx + 3) == 0);
        assert(frame_sum(command, idx) == 0);
    }
}

/// The frame count grows by the number of the sixth token, the ninth, the twelfth and
/// so on, up to the largest number of 32 bits; the other tokens add nothing.
pub proof fn law_frame_count(command: Seq<Seq<char>>, n: u32, rest: Seq<char>, t: Seq<char>)
    requires
        no_digit_next(rest),
    ensures
        command.len() <= 5 ==> frame_total(command) == 0,
        command.len() >= 5 && command.len() % 3 == 2 ==> frame_total(
            command.push(decimal(n as nat) + rest),
        ) == (if frame_total(command) + n <= u32::MAX {
            frame_total(command) + n
        } else {
            u32::MAX as int
        }),
        command.len() >= 5 && command.len() % 3 == 2 ==> frame_total(command.push(rest))
            == frame_total(command),
        command.len() < 5 || command.len() % 3 != 2 ==> frame_total(command.push(t))
            == frame_total(command),
{
    law_number_prefix(n as nat, rest);
    if command.len() >= 5 {
        lemma_sum_push(command, decimal(n as nat) + rest, 5);
        lemma_sum_push(command, rest, 5);
        lemma_sum_push(command, t, 5);
    }
}

/// A command adds at most one row, which is of its own sprite, and changes none.
pub proof fn law_one_row_at_most(st: RowState, spr_id: u32, command: Seq<Seq<char>>)
    ensures
        ({
            let after = command_step(st, spr_id, command).records;
            after == st.records || (after.len() == st.records.len() + 1 && after.drop_last()
                == st.records && after.last().spr_id == spr_id)
        }),
{
    let after = command_step(st, spr_id, command).records;
    if after != st.records {
        assert(after.drop_last() =~= st.records);
    }
}

proof fn lemma_group_prefix(records: Seq<SqlRecord>, g: GroupModel, k: nat)
    ensures
        ({
            let after = group_rows(records, g, k).records;
            &&& records.len() <= after.len() <= records.len() + k
            &&& after.take(records.len() as int) == records
            &&& forall|i: int|
                records.len() <= i < after.len() ==> (#[trigger] after[i]).spr_id == g.spr_id
        }),
    decreases k,
{
    if k > 0 {
        lemma_group_prefix(records, g, (k - 1) as nat);
        let st = group_rows(records, g, (k - 1) as nat);
        law_one_row_at_most(st, g.spr_id, g.commands[k - 1]);
        let after = group_rows(records, g, k).records;
        if after != st.records {
            assert(after.take(records.len() as int) =~= st.records.take(records.len() as int));
            assert forall|i: int| records.len() <= i < after.len() implies (#[trigger] after[i]).spr_id
                == g.spr_id by {
                if i < st.records.len() {
                    assert(after.drop_last()[i] == st.records[i]);
                }
            }
        }
    } else {
        assert(records.take(records.len() as int) =~= records);
    }
}

/// A group begins with 24 frames a second and adds its rows, all of its own sprite and
/// at most one for a command, behind those of the groups before it.
pub proof fn law_groups_add_rows(groups: Seq<GroupModel>, k: nat)
    requires
        k < groups.len(),
    ensures
        table_rows(groups, 0).len() == 0,
        group_rows(table_rows(groups, k), groups[k as int], 0) == (RowState {
            records: table_rows(groups, k),
            framerate: 24,
        }),
        ({
            let before = table_rows(groups, k);
            let after = table_rows(groups, k + 1);
            &&& before.len() <= after.len() <= before.len() + groups[k as int].commands.len()
            &&& after.take(before.len() as int) == before
            &&& forall|i: int|
                before.len() <= i < after.len() ==> (#[trigger] after[i]).spr_id
                    == groups[k as int].spr_id
        }),
{
    lemma_group_prefix(
        table_rows(groups, k),
        groups[k as int],
        groups[k as int].commands.len(),
    );
}

/// The commands of a group count one after the other.
pub proof fn law_commands_in_order(
    groups: Seq<GroupModel>,
    records: Seq<SqlRecord>,
    g: GroupModel,
    k: nat,
)
    requires
        k < g.commands.len(),
    ensures
        group_rows(records, g, k + 1) == command_step(
            group_rows(records, g, k),
            g.spr_id,
            g.commands[k as int],
        ),
        table_rows(groups.push(g), groups.len() + 1) == group_rows(
            table_rows(groups, groups.len()),
            g,
            g.commands.len(),
        ).records,
{
    let all = groups.push(g);
    lemma_table_prefix(groups, g, groups.len());
    assert(all[groups.len() as int] == g);
}

proof fn lemma_table_prefix(groups: Seq<GroupModel>, g: GroupModel, k: nat)
    requires
        k <= groups.len(),
    ensures
        table_rows(groups.push(g), k) == table_rows(groups, k),
    decreases k,
{
    if k > 0 {
        lemma_table_prefix(groups, g, (k - 1) as nat);
        assert(groups.push(g)[k - 1] == groups[k - 1]);
    }
}

/// Each row is one statement with the sprite, the action, the frame count and the frame
/// rate, in that order, and the statements stand in the order of the rows.
pub proof fn law_statements(records: Seq<SqlRecord>, r: SqlRecord)
    ensures
        rows_text(Seq::empty()) == Seq::<char>::empty(),
        rows_text(records.push(r)) == rows_text(records)
            + "INSERT INTO `spr_action` VALUES ('"@ + decimal(r.spr_id as nat) + "', '"@ + decimal(
            r.act_id as nat,
        ) + "', '"@ + decimal(r.framecount as nat) + "', '"@ + decimal(r.framerate as nat)
            + "');\n"@,
{
    assert(records.push(r).drop_last() =~= records);
    assert(rows_text(records.push(r)) == rows_text(records) + row_text(r));
}

/// The characters that a line is cut at: every letter, every character outside ASCII,
/// white space, and `_.(),;:'`.
pub open spec fn cuts(c: char) -> bool {
    c >= '\u{80}' || 'a' <= c <= 'z' || 'A' <= c <= 'Z' || c == ' ' || c == '\t' || c == '\n' || c
        == '\r' || c == '\u{c}' || c == '_' || c == '.' || c == '(' || c == ')' || c == ',' || c
        == ';' || c == ':' || c == '\''
}

proof fn lemma_split_joins(x: Seq<char>, y: Seq<char>, c: char)
    ensures
        split_of(x + seq![c] + y, c) == split_of(x, c) + split_of(y, c),
    decreases x.len(),
{
    if x.contains(c) {
        x.index_of_first_ensures(c);
        let k = x.index_of_first(c)->0;
        let a = x.take(k);
        let b = x.skip(k + 1);
        assert(!a.contains(c)) by {
            if a.contains(c) {
                let i = choose|i: int| 0 <= i < a.len() && a[i] == c;
                assert(x[i] == c);
            }
        }
        assert(x =~= a + seq![c] + b);
        law_split(a, c, b);
        lemma_split_joins(b, y, c);
        assert(x + seq![c] + y =~= a + seq![c] + (b + seq![c] + y));
        law_split(a, c, b + seq![c] + y);
        assert(seq![a] + (split_of(b, c) + split_of(y, c)) =~= seq![a] + split_of(b, c) + split_of(
            y,
            c,
        ));
    } else {
        law_split(x, c, y);
    }
}

/// A line is cut at each character that cuts, and its tokens are those of the two
/// parts; a minus sign cuts too where no digit follows it.
pub proof fn law_tokens_are_cut(a: Seq<char>, c: char, b: Seq<char>)
    requires
        cuts(c) || (c == '-' && no_digit_next(b)),
    ensures
        line_tokens(a + seq![c] + b) == line_tokens(a) + line_tokens(b),
{
    let t = a + seq![c] + b;
    let n = a.len() as int;
    assert(sanitized(t) =~= sanitized(a) + seq![' '] + sanitized(b)) by {
        assert forall|i: int| 0 <= i < t.len() implies sanitized(t)[i] == (sanitized(a) + seq![' ']
            + sanitized(b))[i] by {
            if i < n {
                assert(t[i] == a[i]);
                if i + 1 < n {
                    assert(t[i + 1] == a[i + 1]);
                } else {
                    assert(t[i + 1] == c);
                }
                assert(separates(t, i) == separates(a, i));
            } else if i == n {
                assert(t[i] == c);
                if b.len() > 0 {
                    assert(t[i + 1] == b[0]);
                }
                assert(separates(t, i));
            } else {
                assert(t[i] == b[i - n - 1]);
                if i + 1 < t.len() {
                    assert(t[i + 1] == b[i - n]);
                }
                assert(separates(t, i) == separates(b, i - n - 1));
            }
        }
    }
    lemma_split_joins(sanitized(a), sanitized(b), ' ');
    let f = |t: Seq<char>| t.len() > 0;
    Seq::filter_distributes_over_add(
        split_of(sanitized(a), ' '),
        split_of(sanitized(b), ' '),
        f,
    );
}

/// A run that is cut nowhere is one token, as it stands.
pub proof fn law_one_token(s: Seq<char>)
    requires
        s.len() > 0,
        forall|i: int|
            0 <= i < s.len() ==> !cuts(#[trigger] s[i]) && (s[i] == '-' ==> i + 1 < s.len()
                && is_digit(s[i + 1])),
    ensures
        line_tokens(s) == seq![s],
        line_tokens(Seq::empty()) == Seq::<Seq<char>>::empty(),
{
    assert forall|i: int| 0 <= i < s.len() implies !separates(s, i) by {
        assert(!cuts(s[i]));
    }
    assert(sanitized(s) =~= s);
    assert(!s.contains(' ')) by {
        if s.contains(' ') {
            let i = choose|i: int| 0 <= i < s.len() && s[i] == ' ';
            assert(cuts(s[i]));
        }
    }
    law_split(s, ' ', s);
    let e = Seq::<char>::empty();
    assert(sanitized(e) =~= e);
    law_split(e, ' ', e);
    reveal(Seq::filter);
    assert(seq![s].drop_last() =~= Seq::<Seq<char>>::empty());
    assert(seq![s].last() == s);
    assert(seq![e].drop_last() =~= Seq::<Seq<char>>::empty());
    assert(seq![e].last() == e);
    assert(line_tokens(s) =~= seq![s]);
}

/// A line whose first token is `#` and a number opens a group of that sprite, with no
/// command yet; without a number there is an error with that token.
pub proof fn law_header_opens_a_group(
    groups: Seq<GroupModel>,
    tokens: Seq<Seq<char>>,
    id: u32,
    rest: Seq<char>,
)
    requires
        tokens.len() > 0,
        no_digit_next(rest),
    ensures
        tokens[0] == seq!['#'] + decimal(id as nat) + rest ==> group_line(groups, tokens) == Ok::<
            _,
            Seq<char>,
        >(groups.push(GroupModel { spr_id: id, commands: Seq::empty() })),
        tokens[0] == seq!['#'] + rest ==> group_line(groups, tokens) == Err::<Seq<GroupModel>, _>(
            tokens[0],
        ),
{
    law_number_prefix(id as nat, rest);
    assert((seq!['#'] + decimal(id as nat) + rest).skip(1) =~= decimal(id as nat) + rest);
    assert((seq!['#'] + rest).skip(1) =~= rest);
}

/// Any other line with a token is one more command of the group that was opened last;
/// a line without a token, and one in front of all groups, is passed over.
pub proof fn law_command_joins_the_last_group(
    groups: Seq<GroupModel>,
    g: GroupModel,
    tokens: Seq<Seq<char>>,
)
    requires
        tokens.len() == 0 || tokens[0].len() == 0 || tokens[0][0] != '#',
    ensures
        group_line(Seq::empty(), tokens) == Ok::<_, Seq<char>>(Seq::<GroupModel>::empty()),
        tokens.len() == 0 ==> group_line(groups, tokens) == Ok::<_, Seq<char>>(groups),
        tokens.len() > 0 ==> group_line(groups.push(g), tokens) == Ok::<_, Seq<char>>(
            groups.push(GroupModel { spr_id: g.spr_id, commands: g.commands.push(tokens) }),
        ),
{
    assert(groups.push(g).drop_last() =~= groups);
    assert(groups.push(g).last() == g);
}

/// The lines of a table count one after the other, up to the first error.
pub proof fn law_lines_in_order(ls: Seq<Seq<char>>, k: nat)
    requires
        k < ls.len(),
    ensures
        groups_of(ls, 0) == Ok::<_, Seq<char>>(Seq::<GroupModel>::empty()),
        groups_of(ls, k) matches Ok(groups) ==> groups_of(ls, k + 1) == group_line(
            groups,
            line_tokens(ls[k as int]),
        ),
        groups_of(ls, k) matches Err(t) ==> groups_of(ls, k + 1) == Err::<Seq<GroupModel>, _>(t),
{
}

/// What stands in front of the first `#` is passed over, and a text without one has no
/// group.
pub proof fn law_table_begins_at_the_first_group(a: Seq<char>, b: Seq<char>)
    requires
        !a.contains('#'),
    ensures
        table_lines(a + seq!['#'] + b) == Some(lines_of(seq!['#'] + b)),
        table_groups(a + seq!['#'] + b) == table_groups(seq!['#'] + b),
        table_groups(a) == Err::<Seq<GroupModel>, _>(None::<Seq<char>>),
{
    let t = a + seq!['#'] + b;
    let n = a.len() as int;
    assert(t[n] == '#');
    assert(t.contains('#'));
    t.index_of_first_ensures('#');
    let k = t.index_of_first('#')->0;
    if k < n {
        assert(a[k] == '#');
        assert(a.contains('#'));
    }
    assert(t.skip(n) =~= seq!['#'] + b);
    let u = seq!['#'] + b;
    assert(u[0] == '#');
    assert(u.contains('#'));
    u.index_of_first_ensures('#');
    assert(u.skip(0) =~= u);
    a.index_of_first_ensures('#');
}

/// The groups of a table are those of its lines where there is one at least; an error of a
/// line is the table's, and no group at all is an error too.
pub proof fn law_table_has_its_groups(input: Seq<char>, ls: Seq<Seq<char>>)
    requires
        table_lines(input) == Some(ls),
    ensures
        groups_of(ls, ls.len()) matches Ok(g) ==> {
            &&& g.len() > 0 ==> table_groups(input) == Ok::<_, Option<Seq<char>>>(g)
            &&& g.len() == 0 ==> table_groups(input) == Err::<Seq<GroupModel>, _>(
                None::<Seq<char>>,
            )
        },
        groups_of(ls, ls.len()) matches Err(t) ==> table_groups(input) == Err::<
            Seq<GroupModel>,
            _,
        >(Some(t)),
{
}

/// The tokens of a table are those of its lines, in their order.
pub proof fn law_tokens_in_order(ls: Seq<Seq<char>>, k: nat)
    requires
        k < ls.len(),
    ensures
        tokens_of_lines(ls, 0).len() == 0,
        tokens_of_lines(ls, k + 1) == tokens_of_lines(ls, k) + line_tokens(ls[k as int]),
{
}

} // verus!
