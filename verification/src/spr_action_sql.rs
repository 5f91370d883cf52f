//! Turning a sprite table into SQL rows of frame counts and frame rates.

use crate::text::{
    chars_of, count_digits, decimal, decimal_chars, digit_run, find_char, is_ascii_digit,
    is_digit, lines, lines_of, parse_dec, parse_u32, push_all, push_str, rows, split,
    split_of, split_once, split_once_of, string_of, texts,
};
use vstd::prelude::*;
use vstd::slice::slice_subrange;

verus! {

/// The generated statements and how many there are.
#[derive(Debug, Clone, PartialEq, Eq)]
pub struct SprActionSqlOutput {
    pub sql: String,
    pub row_count: usize,
}

/// A sprite number with the command lines below it, each cut into tokens.
#[derive(Debug, Clone, PartialEq, Eq)]
pub struct ActionGroup {
    pub spr_id: u32,
    pub commands: Vec<Vec<String>>,
}

/// One row.
#[derive(Debug, Clone, Copy, PartialEq, Eq, Structural)]
pub struct SqlRecord {
    pub spr_id: u32,
    pub act_id: u32,
    pub framecount: u32,
    pub framerate: u32,
}

/// Why a table cannot be turned into rows.
#[derive(Debug, Clone, PartialEq, Eq)]
pub enum SqlError {
    /// There is no `#` in the text.
    NoGroup,
    /// A token begins with `#` and has no sprite number behind it.
    InvalidId(String),
}

impl SqlError {
    /// The message for the user.
    pub fn to_string(&self) -> (r: String)
        ensures
            r@ == (match *self {
                SqlError::NoGroup => "no valid #spr_id group"@,
                SqlError::InvalidId(t) => "invalid #spr_id token: "@ + t@,
            }),
    {
        match self {
            SqlError::NoGroup => string_of(chars_of("no valid #spr_id group").as_slice()),
            SqlError::InvalidId(t) => {
                let mut out = chars_of("invalid #spr_id token: ");
                push_str(&mut out, t.as_str());
                string_of(out.as_slice())
            },
        }
    }
}

/// The model of an [`ActionGroup`].
#[verifier::ext_equal]
pub struct GroupModel {
    pub spr_id: u32,
    pub commands: Seq<Seq<Seq<char>>>,
}

/// The tokens of a list of commands.
pub open spec fn command_texts(v: Seq<Vec<String>>) -> Seq<Seq<Seq<char>>> {
    v.map_values(|c: Vec<String>| texts(c@))
}

impl View for ActionGroup {
    type V = GroupModel;

    open spec fn view(&self) -> GroupModel {
        GroupModel { spr_id: self.spr_id, commands: command_texts(self.commands@) }
    }
}

/// The models of a list of groups.
pub open spec fn group_models(v: Seq<ActionGroup>) -> Seq<GroupModel> {
    v.map_values(|g: ActionGroup| g@)
}

/// The actions for which rows are written.
pub open spec fn is_supported(code: u32) -> bool {
    code == 0 || code == 1 || code == 4 || code == 5 || code == 11 || code == 12 || 17 <= code <= 21
        || code == 24 || code == 25 || 28 <= code <= 31 || code == 40 || code == 41 || code == 46
        || code == 47 || code == 50 || code == 51 || code == 54 || code == 55 || code == 58 || code
        == 59 || code == 62 || code == 63 || code == 66 || code == 67
}

pub fn is_supported_action_code(code: u32) -> (r: bool)
    ensures
        r == is_supported(code),
{
    code == 0 || code == 1 || code == 4 || code == 5 || code == 11 || code == 12 || (17 <= code
        && code <= 21) || code == 24 || code == 25 || (28 <= code && code <= 31) || code == 40
        || code == 41 || code == 46 || code == 47 || code == 50 || code == 51 || code == 54 || code
        == 55 || code == 58 || code == 59 || code == 62 || code == 63 || code == 66 || code == 67
}

/// The number that a token begins with.
pub open spec fn number_prefix(token: Seq<char>) -> Option<u32> {
    let n = digit_run(token) as int;
    if n == 0 {
        None
    } else {
        match parse_dec(token.take(n), u32::MAX as nat) {
            Some(v) => Some(v as u32),
            None => None,
        }
    }
}

fn prefix_of(token: &[char]) -> (r: Option<u32>)
    ensures
        r == number_prefix(token@),
{
    let n = count_digits(token);
    if n == 0 {
        return None;
    }
    let d = slice_subrange(token, 0, n);
    assert(d@ == token@.take(n as int));
    parse_u32(d)
}

pub fn parse_u32_prefix(token: &str) -> (r: Option<u32>)
    ensures
        r == number_prefix(token@),
{
    prefix_of(chars_of(token).as_slice())
}

/// `<action>=<sprite>`: the action and the sprite that it is taken from.
pub open spec fn reference_of(token: Seq<char>) -> Option<(u32, u32)> {
    match split_once_of(token, '=') {
        Some(p) => match (number_prefix(p.0), number_prefix(p.1)) {
            (Some(act), Some(spr)) => Some((act, spr)),
            _ => None,
        },
        None => None,
    }
}

pub fn parse_reference(token: &str) -> (r: Option<(u32, u32)>)
    ensures
        r == reference_of(token@),
{
    let chars = chars_of(token);
    match split_once(chars.as_slice(), '=') {
        Some((left, right)) => match (prefix_of(left), prefix_of(right)) {
            (Some(act), Some(spr)) => Some((act, spr)),
            _ => None,
        },
        None => None,
    }
}

/// The sum of the frame lengths of a command: every third token from the sixth
/// on, tokens without a number counting nothing.
pub open spec fn frame_sum(command: Seq<Seq<char>>, idx: int) -> nat
    decreases command.len() + 3 - idx,
{
    if 0 <= idx < command.len() {
        (match number_prefix(command[idx]) {
            Some(v) => v as nat,
            None => 0,
        }) + frame_sum(command, idx + 3)
    } else {
        0
    }
}

/// The frame count of a command, at most the largest `u32`.
pub open spec fn frame_total(command: Seq<Seq<char>>) -> u32 {
    if frame_sum(command, 5) <= u32::MAX {
        frame_sum(command, 5) as u32
    } else {
        u32::MAX
    }
}

pub fn framecount_from_command(command: &Vec<String>) -> (r: u32)
    ensures
        r == frame_total(texts(command@)),
{
    let ghost m = texts(command@);
    let mut total: u32 = 0;
    let mut idx: usize = 5;
    let n: usize = command.len();
    while idx < n
        invariant
            n == command@.len(),
            m == texts(command@),
            5 <= idx,
            frame_sum(m, 5) <= u32::MAX ==> total + frame_sum(m, idx as int) == frame_sum(m, 5),
            frame_sum(m, 5) > u32::MAX ==> total == u32::MAX || total + frame_sum(m, idx as int)
                == frame_sum(m, 5),
        decreases n - idx,
    {
        assert(m[idx as int] == command@[idx as int]@);
        match parse_u32_prefix(command[idx].as_str()) {
            Some(v) => {
                total = total.saturating_add(v);
            },
            None => {},
        }
        if n - idx <= 3 {
            assert(frame_sum(m, idx + 3) == 0);
            return total;
        }
        idx += 3;
    }
    total
}

/// The statement for one row.
pub open spec fn row_text(r: SqlRecord) -> Seq<char> {
    "INSERT INTO `spr_action` VALUES ('"@ + decimal(r.spr_id as nat) + "', '"@ + decimal(
        r.act_id as nat,
    ) + "', '"@ + decimal(r.framecount as nat) + "', '"@ + decimal(r.framerate as nat) + "');\n"@
}

/// The statements for a list of rows.
pub open spec fn rows_text(records: Seq<SqlRecord>) -> Seq<char>
    decreases records.len(),
{
    if records.len() == 0 {
        seq![]
    } else {
        rows_text(records.drop_last()) + row_text(records.last())
    }
}

pub fn records_to_sql(records: &Vec<SqlRecord>) -> (r: String)
    ensures
        r@ == rows_text(records@),
{
    let mut out: Vec<char> = Vec::new();
    let mut i: usize = 0;
    assert(records@.take(0) == Seq::<SqlRecord>::empty());
    while i < records.len()
        invariant
            i <= records@.len(),
            out@ == rows_text(records@.take(i as int)),
        decreases records@.len() - i,
    {
        let r = records[i];
        let ghost before = out@;
        push_str(&mut out, "INSERT INTO `spr_action` VALUES ('");
        push_all(&mut out, decimal_chars(r.spr_id as u64).as_slice());
        push_str(&mut out, "', '");
        push_all(&mut out, decimal_chars(r.act_id as u64).as_slice());
        push_str(&mut out, "', '");
        push_all(&mut out, decimal_chars(r.framecount as u64).as_slice());
        push_str(&mut out, "', '");
        push_all(&mut out, decimal_chars(r.framerate as u64).as_slice());
        push_str(&mut out, "');\n");
        proof {
            assert(out@ == before + row_text(r));
            assert(records@.take(i + 1).drop_last() == records@.take(i as int));
        }
        i += 1;
    }
    assert(records@.take(i as int) == records@);
    string_of(out.as_slice())
}

/// A character that separates tokens: not ASCII, a letter, white space, one of
/// `_.(),;:'`, or a minus sign without a digit behind it.
pub open spec fn separates(line: Seq<char>, i: int) -> bool {
    let c = line[i];
    ||| c >= '\u{80}'
    ||| 'a' <= c <= 'z'
    ||| 'A' <= c <= 'Z'
    ||| c == ' ' || c == '\t' || c == '\n' || c == '\u{c}' || c == '\r'
    ||| c == '_' || c == '.' || c == '(' || c == ')' || c == ',' || c == ';' || c == ':' || c
        == '\''
    ||| c == '-' && !(i + 1 < line.len() && is_digit(line[i + 1]))
}

/// A line with a blank for each separating character.
pub open spec fn sanitized(line: Seq<char>) -> Seq<char> {
    Seq::new(
        line.len(),
        |i: int|
            if separates(line, i) {
                ' '
            } else {
                line[i]
            },
    )
}

/// The tokens of a line.
pub open spec fn line_tokens(line: Seq<char>) -> Seq<Seq<char>> {
    split_of(sanitized(line), ' ').filter(|t: Seq<char>| t.len() > 0)
}

fn sanitize(line: &[char]) -> (r: Vec<char>)
    ensures
        r@ == sanitized(line@),
{
    let mut out: Vec<char> = Vec::new();
    let mut i: usize = 0;
    while i < line.len()
        invariant
            i <= line@.len(),
            out@.len() == i,
            forall|j: int| 0 <= j < i ==> out@[j] == sanitized(line@)[j],
        decreases line@.len() - i,
    {
        let c = line[i];
        let digit_next = i + 1 < line.len() && is_ascii_digit(line[i + 1]);
        let sep = c >= '\u{80}' || ('a' <= c && c <= 'z') || ('A' <= c && c <= 'Z') || c == ' ' || c
            == '\t' || c == '\n' || c == '\u{c}' || c == '\r' || c == '_' || c == '.' || c == '('
            || c == ')' || c == ',' || c == ';' || c == ':' || c == '\'' || (c == '-'
            && !digit_next);
        out.push(
            if sep {
                ' '
            } else {
                c
            },
        );
        i += 1;
    }
    assert(out@ == sanitized(line@));
    out
}

fn tokens_of(line: &[char]) -> (r: Vec<String>)
    ensures
        texts(r@) == line_tokens(line@),
{
    let clean = sanitize(line);
    let parts = split(clean.as_slice(), ' ');
    let ghost m = rows(parts@);
    let ghost f = |t: Seq<char>| t.len() > 0;
    let mut out: Vec<String> = Vec::new();
    let mut i: usize = 0;
    assert(m.take(0).filter(f) == Seq::<Seq<char>>::empty()) by {
        reveal(Seq::filter);
    }
    while i < parts.len()
        invariant
            i <= parts@.len(),
            m == rows(parts@),
            f == (|t: Seq<char>| t.len() > 0),
            texts(out@) == m.take(i as int).filter(f),
        decreases parts@.len() - i,
    {
        let ghost before = texts(out@);
        assert(m[i as int] == parts@[i as int]@);
        if parts[i].len() > 0 {
            let s = string_of(parts[i].as_slice());
            let ghost sm = s@;
            out.push(s);
            assert(texts(out@) == before.push(sm));
        }
        proof {
            reveal(Seq::filter);
            assert(m.take(i + 1).drop_last() == m.take(i as int));
            assert(m.take(i + 1).last() == m[i as int]);
        }
        i += 1;
    }
    assert(m.take(i as int) == m);
    out
}

pub fn legacy_line_tokens(input: &str) -> (r: Vec<String>)
    ensures
        texts(r@) == line_tokens(input@),
{
    tokens_of(chars_of(input).as_slice())
}

/// The tokens of the first `k` lines, in order.
pub open spec fn tokens_of_lines(ls: Seq<Seq<char>>, k: nat) -> Seq<Seq<char>>
    decreases k,
{
    if k == 0 {
        seq![]
    } else {
        tokens_of_lines(ls, (k - 1) as nat) + line_tokens(ls[k - 1])
    }
}

/// The lines from the first `#` on.
pub open spec fn table_lines(input: Seq<char>) -> Option<Seq<Seq<char>>> {
    match input.index_of_first('#') {
        Some(i) => Some(lines_of(input.skip(i))),
        None => None,
    }
}

/// All tokens from the first `#` on.
pub fn legacy_tokens(input: &str) -> (r: Vec<String>)
    ensures
        texts(r@) == (match table_lines(input@) {
            Some(ls) => tokens_of_lines(ls, ls.len()),
            None => seq![],
        }),
{
    let chars = chars_of(input);
    let mut out: Vec<String> = Vec::new();
    match find_char(chars.as_slice(), '#') {
        Some(start) => {
            let rest = slice_subrange(chars.as_slice(), start, chars.len());
            assert(rest@ == input@.skip(start as int));
            let ls = lines(rest);
            let ghost m = rows(ls@);
            let mut i: usize = 0;
            assert(texts(out@) == tokens_of_lines(m, 0));
            while i < ls.len()
                invariant
                    i <= ls@.len(),
                    m == rows(ls@),
                    texts(out@) == tokens_of_lines(m, i as nat),
                decreases ls@.len() - i,
            {
                assert(m[i as int] == ls@[i as int]@);
                let mut t = tokens_of(ls[i].as_slice());
                let ghost before = texts(out@);
                let ghost tm = texts(t@);
                out.append(&mut t);
                assert(texts(out@) == before + tm);
                i += 1;
            }
            out
        },
        None => {
            assert(texts(out@) == Seq::<Seq<char>>::empty());
            out
        },
    }
}

/// What one line adds to the groups: a token with `#` opens a group, any other
/// line is a command of the group that is open.
pub open spec fn group_line(groups: Seq<GroupModel>, tokens: Seq<Seq<char>>) -> Result<
    Seq<GroupModel>,
    Seq<char>,
> {
    if tokens.len() == 0 {
        Ok(groups)
    } else if tokens[0].len() > 0 && tokens[0][0] == '#' {
        match number_prefix(tokens[0].skip(1)) {
            Some(id) => Ok(groups.push(GroupModel { spr_id: id, commands: seq![] })),
            None => Err(tokens[0]),
        }
    } else if groups.len() == 0 {
        Ok(groups)
    } else {
        Ok(
            groups.drop_last().push(
                GroupModel {
                    spr_id: groups.last().spr_id,
                    commands: groups.last().commands.push(tokens),
                },
            ),
        )
    }
}

/// The groups of the first `k` lines, or the first token that is wrong.
pub open spec fn groups_of(ls: Seq<Seq<char>>, k: nat) -> Result<Seq<GroupModel>, Seq<char>>
    decreases k,
{
    if k == 0 {
        Ok(seq![])
    } else {
        match groups_of(ls, (k - 1) as nat) {
            Ok(groups) => group_line(groups, line_tokens(ls[k - 1])),
            Err(t) => Err(t),
        }
    }
}

/// The groups of a table, or why it has none.
pub open spec fn table_groups(input: Seq<char>) -> Result<Seq<GroupModel>, Option<Seq<char>>> {
    match table_lines(input) {
        Some(ls) => match groups_of(ls, ls.len()) {
            Ok(groups) => if groups.len() == 0 {
                Err(None)
            } else {
                Ok(groups)
            },
            Err(t) => Err(Some(t)),
        },
        None => Err(None),
    }
}

/// What an error stands for in [`table_groups`].
pub open spec fn error_model(e: SqlError) -> Option<Seq<char>> {
    match e {
        SqlError::NoGroup => None,
        SqlError::InvalidId(t) => Some(t@),
    }
}

proof fn lemma_groups_fail(ls: Seq<Seq<char>>, j: nat, k: nat)
    requires
        j <= k,
        groups_of(ls, j) is Err,
    ensures
        groups_of(ls, k) == groups_of(ls, j),
    decreases k,
{
    if j < k {
        lemma_groups_fail(ls, j, (k - 1) as nat);
    }
}

pub fn parse_action_groups(input: &str) -> (r: Result<Vec<ActionGroup>, SqlError>)
    ensures
        match r {
            Ok(groups) => table_groups(input@) == Ok::<_, Option<Seq<char>>>(group_models(groups@)),
            Err(e) => table_groups(input@) == Err::<Seq<GroupModel>, _>(error_model(e)),
        },
{
    let chars = chars_of(input);
    let start = match find_char(chars.as_slice(), '#') {
        Some(i) => i,
        None => return Err(SqlError::NoGroup),
    };
    let rest = slice_subrange(chars.as_slice(), start, chars.len());
    assert(rest@ == input@.skip(start as int));
    let ls = lines(rest);
    let ghost m = rows(ls@);
    let mut groups: Vec<ActionGroup> = Vec::new();
    let mut i: usize = 0;
    assert(group_models(groups@) == Seq::<GroupModel>::empty());
    while i < ls.len()
        invariant
            i <= ls@.len(),
            m == rows(ls@),
            m.len() == ls@.len(),
            table_lines(input@) == Some(m),
            groups_of(m, i as nat) == Ok::<_, Seq<char>>(group_models(groups@)),
        decreases ls@.len() - i,
    {
        assert(m[i as int] == ls@[i as int]@);
        let tokens = tokens_of(ls[i].as_slice());
        let ghost tm = texts(tokens@);
        let ghost before = group_models(groups@);
        assert(groups_of(m, (i + 1) as nat) == group_line(before, tm));
        if tokens.len() > 0 {
            let first = chars_of(tokens[0].as_str());
            assert(tm[0] == first@);
            if first.len() > 0 && first[0] == '#' {
                let id_text = slice_subrange(first.as_slice(), 1, first.len());
                assert(id_text@ == first@.skip(1));
                match prefix_of(id_text) {
                    Some(id) => {
                        let g = ActionGroup { spr_id: id, commands: Vec::new() };
                        let ghost gm = g@;
                        assert(gm.commands == Seq::<Seq<Seq<char>>>::empty());
                        groups.push(g);
                        assert(group_models(groups@) == before.push(gm));
                    },
                    None => {
                        proof {
                            lemma_groups_fail(m, (i + 1) as nat, m.len());
                        }
                        return Err(SqlError::InvalidId(string_of(first.as_slice())));
                    },
                }
            } else if groups.len() > 0 {
                let mut g = groups.pop().unwrap();
                let ghost gm = g@;
                assert(group_models(groups@) == before.drop_last());
                assert(gm == before.last());
                g.commands.push(tokens);
                assert(command_texts(g.commands@) == gm.commands.push(tm));
                groups.push(g);
                assert(group_models(groups@) == before.drop_last().push(g@));
            }
        }
        i += 1;
    }
    assert(group_models(groups@).len() == groups@.len());
    if groups.len() == 0 {
        return Err(SqlError::NoGroup);
    }
    Ok(groups)
}

/// The first row of a sprite and action.
pub open spec fn find_record(records: Seq<SqlRecord>, spr: u32, act: u32) -> Option<SqlRecord>
    decreases records.len(),
{
    if records.len() == 0 {
        None
    } else if records[0].spr_id == spr && records[0].act_id == act {
        Some(records[0])
    } else {
        find_record(records.drop_first(), spr, act)
    }
}

fn lookup_record(records: &Vec<SqlRecord>, spr: u32, act: u32) -> (r: Option<SqlRecord>)
    ensures
        r == find_record(records@, spr, act),
{
    let mut i: usize = 0;
    assert(records@.skip(0) == records@);
    while i < records.len()
        invariant
            i <= records@.len(),
            find_record(records@, spr, act) == find_record(records@.skip(i as int), spr, act),
        decreases records@.len() - i,
    {
        assert(records@.skip(i as int).drop_first() == records@.skip(i + 1));
        if records[i].spr_id == spr && records[i].act_id == act {
            return Some(records[i]);
        }
        i += 1;
    }
    None
}

/// Rows so far, and the frame rate that holds in the current group.
#[verifier::ext_equal]
pub struct RowState {
    pub records: Seq<SqlRecord>,
    pub framerate: u32,
}

/// What one command adds: a reference copies the row it names if that row is
/// there, the command 110 sets the frame rate, and a supported action gets a
/// row of its own.
pub open spec fn command_step(st: RowState, spr_id: u32, command: Seq<Seq<char>>) -> RowState {
    if command.len() == 0 {
        st
    } else if command[0].contains('=') {
        match reference_of(command[0]) {
            Some((act, target)) => match find_record(st.records, target, act) {
                Some(found) => RowState {
                    records: st.records.push(
                        SqlRecord {
                            spr_id,
                            act_id: act,
                            framecount: found.framecount,
                            framerate: found.framerate,
                        },
                    ),
                    framerate: st.framerate,
                },
                None => st,
            },
            None => st,
        }
    } else {
        match number_prefix(command[0]) {
            Some(act) => if act == 110 {
                if command.len() > 1 && number_prefix(command[1]) is Some {
                    RowState { records: st.records, framerate: number_prefix(command[1])->0 }
                } else {
                    st
                }
            } else if is_supported(act) {
                RowState {
                    records: st.records.push(
                        SqlRecord {
                            spr_id,
                            act_id: act,
                            framecount: frame_total(command),
                            framerate: st.framerate,
                        },
                    ),
                    framerate: st.framerate,
                }
            } else {
                st
            },
            None => st,
        }
    }
}

/// The first `k` commands of a group; a group begins with the frame rate 24.
pub open spec fn group_rows(records: Seq<SqlRecord>, g: GroupModel, k: nat) -> RowState
    decreases k,
{
    if k == 0 {
        RowState { records, framerate: 24 }
    } else {
        command_step(group_rows(records, g, (k - 1) as nat), g.spr_id, g.commands[k - 1])
    }
}

/// The rows of the first `k` groups.
pub open spec fn table_rows(groups: Seq<GroupModel>, k: nat) -> Seq<SqlRecord>
    decreases k,
{
    if k == 0 {
        seq![]
    } else {
        let g = groups[k - 1];
        group_rows(table_rows(groups, (k - 1) as nat), g, g.commands.len()).records
    }
}

fn apply_command(
    records: &mut Vec<SqlRecord>,
    framerate: &mut u32,
    spr_id: u32,
    command: &Vec<String>,
)
    ensures
        (RowState { records: final(records)@, framerate: *final(framerate) }) == command_step(
            RowState { records: old(records)@, framerate: *old(framerate) },
            spr_id,
            texts(command@),
        ),
{
    let ghost m = texts(command@);
    if command.len() == 0 {
        return ;
    }
    assert(m[0] == command@[0]@);
    let first = chars_of(command[0].as_str());
    match find_char(first.as_slice(), '=') {
        Some(i) => {
            assert(m[0].contains('=')) by {
                assert(m[0][i as int] == '=');
            }
            match parse_reference(command[0].as_str()) {
                Some((act, target)) => match lookup_record(records, target, act) {
                    Some(found) => {
                        records.push(
                            SqlRecord {
                                spr_id,
                                act_id: act,
                                framecount: found.framecount,
                                framerate: found.framerate,
                            },
                        );
                    },
                    None => {},
                },
                None => {},
            }
            return ;
        },
        None => {},
    }
    match prefix_of(first.as_slice()) {
        Some(act) => {
            if act == 110 {
                if command.len() > 1 {
                    assert(m[1] == command@[1]@);
                    match parse_u32_prefix(command[1].as_str()) {
                        Some(v) => {
                            *framerate = v;
                        },
                        None => {},
                    }
                }
            } else if is_supported_action_code(act) {
                records.push(
                    SqlRecord {
                        spr_id,
                        act_id: act,
                        framecount: framecount_from_command(command),
                        framerate: *framerate,
                    },
                );
            }
        },
        None => {},
    }
}

/// The SQL statements for a sprite table.
pub fn generate_spr_action_sql(input: &str) -> (r: Result<SprActionSqlOutput, SqlError>)
    ensures
        match r {
            Ok(out) => {
                &&& table_groups(input@) is Ok
                &&& out.row_count == table_rows(
                    table_groups(input@)->Ok_0,
                    table_groups(input@)->Ok_0.len(),
                ).len()
                &&& out.sql@ == rows_text(
                    table_rows(table_groups(input@)->Ok_0, table_groups(input@)->Ok_0.len()),
                )
            },
            Err(e) => table_groups(input@) == Err::<Seq<GroupModel>, _>(error_model(e)),
        },
{
    let groups = match parse_action_groups(input) {
        Ok(g) => g,
        Err(e) => return Err(e),
    };
    let ghost m = group_models(groups@);
    let mut records: Vec<SqlRecord> = Vec::new();
    let mut i: usize = 0;
    while i < groups.len()
        invariant
            i <= groups@.len(),
            m == group_models(groups@),
            records@ == table_rows(m, i as nat),
        decreases groups@.len() - i,
    {
        let g = &groups[i];
        let ghost gm = m[i as int];
        assert(gm == g@);
        let ghost start = records@;
        let mut framerate: u32 = 24;
        let mut k: usize = 0;
        while k < g.commands.len()
            invariant
                k <= g.commands@.len(),
                gm == g@,
                (RowState { records: records@, framerate }) == group_rows(start, gm, k as nat),
            decreases g.commands@.len() - k,
        {
            assert(gm.commands[k as int] == texts(g.commands@[k as int]@));
            apply_command(&mut records, &mut framerate, g.spr_id, &g.commands[k]);
            k += 1;
        }
        assert(gm.commands.len() == g.commands@.len());
        i += 1;
    }
    let sql = records_to_sql(&records);
    Ok(SprActionSqlOutput { row_count: records.len(), sql })
}

proof fn lemma_found(records: Seq<SqlRecord>, spr: u32, act: u32)
    ensures
        find_record(records, spr, act) matches Some(r) ==> r.spr_id == spr && r.act_id == act
            && records.contains(r),
    decreases records.len(),
{
    if records.len() > 0 {
        if records[0].spr_id == spr && records[0].act_id == act {
            assert(records.contains(records[0]));
        } else {
            lemma_found(records.drop_first(), spr, act);
            if let Some(r) = find_record(records.drop_first(), spr, act) {
                let k = choose|k: int|
                    0 <= k < records.drop_first().len() && records.drop_first()[k] == r;
                assert(records[k + 1] == r);
            }
        }
    }
}

/// All rows are of actions for which rows are written.
pub open spec fn all_supported(records: Seq<SqlRecord>) -> bool {
    forall|i: int| 0 <= i < records.len() ==> is_supported((#[trigger] records[i]).act_id)
}

proof fn lemma_step_supported(st: RowState, spr_id: u32, command: Seq<Seq<char>>)
    requires
        all_supported(st.records),
    ensures
        all_supported(command_step(st, spr_id, command).records),
{
    if command.len() > 0 && command[0].contains('=') {
        if let Some((act, target)) = reference_of(command[0]) {
            lemma_found(st.records, target, act);
            if let Some(found) = find_record(st.records, target, act) {
                let k = choose|k: int| 0 <= k < st.records.len() && st.records[k] == found;
                assert(is_supported(st.records[k].act_id));
            }
        }
    }
}

proof fn lemma_group_supported(records: Seq<SqlRecord>, g: GroupModel, k: nat)
    requires
        all_supported(records),
    ensures
        all_supported(group_rows(records, g, k).records),
    decreases k,
{
    if k > 0 {
        lemma_group_supported(records, g, (k - 1) as nat);
        lemma_step_supported(
            group_rows(records, g, (k - 1) as nat),
            g.spr_id,
            g.commands[k - 1],
        );
    }
}

/// No row is written of an action for which none are written, by a reference
/// either.
pub proof fn law_rows_are_supported(groups: Seq<GroupModel>, k: nat)
    ensures
        all_supported(table_rows(groups, k)),
    decreases k,
{
    if k > 0 {
        law_rows_are_supported(groups, (k - 1) as nat);
        let g = groups[k - 1];
        lemma_group_supported(table_rows(groups, (k - 1) as nat), g, g.commands.len());
    }
}

/// How many line breaks a text has.
pub open spec fn breaks(s: Seq<char>) -> nat
    decreases s.len(),
{
    if s.len() == 0 {
        0
    } else {
        breaks(s.drop_last()) + (if s.last() == '\n' {
            1nat
        } else {
            0nat
        })
    }
}

proof fn lemma_breaks_sum(a: Seq<char>, b: Seq<char>)
    ensures
        breaks(a + b) == breaks(a) + breaks(b),
    decreases b.len(),
{
    if b.len() == 0 {
        assert(a + b == a);
    } else {
        assert((a + b).drop_last() == a + b.drop_last());
        lemma_breaks_sum(a, b.drop_last());
    }
}

proof fn lemma_no_breaks(s: Seq<char>)
    requires
        forall|i: int| 0 <= i < s.len() ==> #[trigger] s[i] != '\n',
    ensures
        breaks(s) == 0,
    decreases s.len(),
{
    if s.len() > 0 {
        assert(s[s.len() - 1] != '\n');
        assert forall|i: int| 0 <= i < s.drop_last().len() implies #[trigger] s.drop_last()[i]
            != '\n' by {
            assert(s[i] != '\n');
        }
        lemma_no_breaks(s.drop_last());
    }
}

proof fn lemma_number_breaks(n: nat)
    ensures
        breaks(decimal(n)) == 0,
{
    crate::text::lemma_decimal(n);
    let d = decimal(n);
    assert forall|i: int| 0 <= i < d.len() implies #[trigger] d[i] != '\n' by {
        assert(crate::text::is_digit(d[i]));
    }
    lemma_no_breaks(d);
}

proof fn lemma_row_breaks(r: SqlRecord)
    ensures
        breaks(row_text(r)) == 1,
{
    reveal_strlit("INSERT INTO `spr_action` VALUES ('");
    reveal_strlit("', '");
    reveal_strlit("');\n");
    let a = "INSERT INTO `spr_action` VALUES ('"@;
    let c = "', '"@;
    let z = "');\n"@;
    lemma_no_breaks(a);
    lemma_no_breaks(c);
    assert(z.drop_last().len() == 3);
    lemma_no_breaks(z.drop_last());
    assert(breaks(z) == 1);
    let n0 = decimal(r.spr_id as nat);
    let n1 = decimal(r.act_id as nat);
    let n2 = decimal(r.framecount as nat);
    let n3 = decimal(r.framerate as nat);
    lemma_number_breaks(r.spr_id as nat);
    lemma_number_breaks(r.act_id as nat);
    lemma_number_breaks(r.framecount as nat);
    lemma_number_breaks(r.framerate as nat);
    lemma_breaks_sum(a, n0);
    lemma_breaks_sum(a + n0, c);
    lemma_breaks_sum(a + n0 + c, n1);
    lemma_breaks_sum(a + n0 + c + n1, c);
    lemma_breaks_sum(a + n0 + c + n1 + c, n2);
    lemma_breaks_sum(a + n0 + c + n1 + c + n2, c);
    lemma_breaks_sum(a + n0 + c + n1 + c + n2 + c, n3);
    lemma_breaks_sum(a + n0 + c + n1 + c + n2 + c + n3, z);
}

/// The statements have one line for each row.
pub proof fn law_one_line_per_row(records: Seq<SqlRecord>)
    ensures
        breaks(rows_text(records)) == records.len(),
        records.len() > 0 ==> rows_text(records).last() == '\n',
    decreases records.len(),
{
    if records.len() > 0 {
        law_one_line_per_row(records.drop_last());
        lemma_row_breaks(records.last());
        lemma_breaks_sum(rows_text(records.drop_last()), row_text(records.last()));
        reveal_strlit("');\n");
        assert(row_text(records.last()).last() == '\n');
    }
}

} // verus!
