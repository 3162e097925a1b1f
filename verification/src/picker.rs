//! The list to pick a session from: moving about, typing a name, killing and
//! renaming, and what it looks like on the terminal.

use vstd::prelude::*;
use crate::naming;
use crate::naming::{display_session_name, resolve_session_name};
use crate::protocol::SessionEntry;
use crate::sessions;
use crate::sessions::{build_rows, suggest_name, Row, RowModel};
use crate::text;
use crate::text::{
    cat3,
    cat5,
    cat7,
    chars_of,
    copy,
    decimal_text,
    pad_right,
    same,
    space,
    text_of,
    trim,
};

verus! {

#[derive(Clone, Copy, PartialEq, Eq, Structural)]
pub enum KeyCode {
    Up,
    Down,
    Left,
    Right,
    Home,
    End,
    Enter,
    Esc,
    Backspace,
    Delete,
    Char(char),
    Other,
}

/// What is held down with a key.
#[derive(Clone, Copy, PartialEq, Eq, Structural)]
pub enum Held {
    Nothing,
    Shift,
    Control,
    Other,
}

#[derive(Clone, Copy, PartialEq, Eq, Structural)]
pub struct Key {
    pub code: KeyCode,
    pub held: Held,
}

/// What the keys do at the moment.
pub enum Mode {
    /// Move about and choose.
    Pick,
    /// Type a name, for a new session or for the one that is renamed.
    Input { buf: Vec<char>, pos: usize, rename_of: Option<String> },
    /// Say whether to kill a session.
    ConfirmKill { name: String },
}

/// What the keys do, as a value.
pub enum ModeModel {
    Pick,
    Input { buf: Seq<char>, pos: int, rename_of: Option<Seq<char>> },
    ConfirmKill { name: Seq<char> },
}

impl View for Mode {
    type V = ModeModel;

    open spec fn view(&self) -> ModeModel {
        match self {
            Mode::Pick => ModeModel::Pick,
            Mode::Input { buf, pos, rename_of } => ModeModel::Input {
                buf: buf@,
                pos: *pos as int,
                rename_of: text::owned_view(*rename_of),
            },
            Mode::ConfirmKill { name } => ModeModel::ConfirmKill { name: name@ },
        }
    }
}

/// Which answer of the server is awaited.
#[derive(Clone, Copy, PartialEq, Eq, Structural)]
pub enum Awaiting {
    Nothing,
    Kill,
    ListAfterKill,
    Rename,
    ListAfterRename,
}

/// The list to pick from.
pub struct Picker {
    pub host: String,
    pub client_name: String,
    pub home: String,
    pub rows: Vec<Row>,
    /// The row under the cursor; the one after the last makes a new session.
    pub cursor: usize,
    pub mode: Mode,
    /// What the server said to the last wish that it refused.
    pub status: Option<String>,
    /// How many lines are on the terminal.
    pub lines: usize,
    pub awaiting: Awaiting,
}

/// The list to pick from, as a value.
pub struct PickModel {
    pub host: Seq<char>,
    pub client: Seq<char>,
    pub home: Seq<char>,
    pub rows: Seq<RowModel>,
    pub cursor: int,
    pub mode: ModeModel,
    pub status: Option<Seq<char>>,
    pub lines: usize,
    pub awaiting: Awaiting,
}

impl View for Picker {
    type V = PickModel;

    open spec fn view(&self) -> PickModel {
        PickModel {
            host: self.host@,
            client: self.client_name@,
            home: self.home@,
            rows: sessions::row_views(self.rows@),
            cursor: self.cursor as int,
            mode: self.mode@,
            status: text::owned_view(self.status),
            lines: self.lines,
            awaiting: self.awaiting,
        }
    }
}

/// The cursor is on a row or on the one for a new session, and the place in a
/// typed name is within it.
pub open spec fn in_bounds(m: PickModel) -> bool {
    &&& 0 <= m.cursor <= m.rows.len()
    &&& m.mode matches ModeModel::Input { buf, pos, .. } ==> 0 <= pos <= buf.len()
}

/// What the server said to a wish.
pub enum Reply {
    Granted,
    Refused(String),
    /// Something else, shown as it is.
    Unexpected(String),
}

/// What happened.
pub enum PickerEvent {
    Key(Key),
    /// Something on the terminal that is no key.
    Other,
    /// The terminal cannot be read.
    Unreadable,
    Killed(Reply),
    Renamed(Reply),
    /// The server's sessions, where it listed them, at a time.
    Listed { sessions: Option<Vec<SessionEntry>>, now: u64 },
}

/// What to do next.
pub enum PickerAction {
    /// Wait for the next key.
    Wait,
    /// Write this to the terminal, then wait for the next key.
    Draw(String),
    Kill { session: String },
    Rename { session: String, new_name: String },
    List,
    /// Write this to the terminal and be done, with the session that was
    /// chosen and whether to take it over.
    Finish { choice: Option<(String, bool)>, erase: String },
}

/// What an event leads to.
pub enum Outcome {
    Ignore,
    /// Show this.
    Show(PickModel),
    /// Be done with this choice.
    Choose(Option<(Seq<char>, bool)>),
    Kill(PickModel, Seq<char>),
    Rename(PickModel, Seq<char>, Seq<char>),
    List(PickModel),
}

pub open spec fn chosen(name: Seq<char>, force: bool) -> Outcome {
    Outcome::Choose(Some((name, force)))
}

pub open spec fn is_char(k: Key, c: char, held: Held) -> bool {
    k.code == KeyCode::Char(c) && k.held == held
}

/// What a key does while moving about.
pub open spec fn on_pick(m: PickModel, k: Key) -> Outcome {
    let plain = k.held == Held::Nothing;
    if plain && (k.code == KeyCode::Up || k.code == KeyCode::Char('k')) {
        Outcome::Show(
            PickModel {
                cursor: if m.cursor > 0 {
                    m.cursor - 1
                } else {
                    0
                },
                ..m
            },
        )
    } else if plain && (k.code == KeyCode::Down || k.code == KeyCode::Char('j')) {
        Outcome::Show(
            PickModel {
                cursor: if m.cursor < m.rows.len() {
                    m.cursor + 1
                } else {
                    m.cursor
                },
                ..m
            },
        )
    } else if k.code == KeyCode::Enter {
        if m.cursor < m.rows.len() {
            chosen(m.rows[m.cursor].name, false)
        } else {
            chosen(sessions::suggestion(m.rows, m.client), false)
        }
    } else if plain && k.code is Char && '1' <= k.code->Char_0 && k.code->Char_0 <= '9' {
        let i = k.code->Char_0 as int - 0x31;
        if i < m.rows.len() {
            chosen(m.rows[i].name, false)
        } else {
            Outcome::Show(m)
        }
    } else if plain && k.code == KeyCode::Char('n') {
        chosen(sessions::suggestion(m.rows, m.client), false)
    } else if plain && (k.code == KeyCode::Char('c') || k.code == KeyCode::Char('+')) {
        let name = naming::shown_name(sessions::suggestion(m.rows, m.client), m.client);
        Outcome::Show(
            PickModel {
                cursor: m.rows.len() as int,
                status: None,
                mode: ModeModel::Input { buf: name, pos: name.len() as int, rename_of: None },
                ..m
            },
        )
    } else if plain && (k.code == KeyCode::Char('x') || k.code == KeyCode::Delete) {
        if m.cursor < m.rows.len() {
            Outcome::Show(
                PickModel {
                    status: None,
                    mode: ModeModel::ConfirmKill { name: m.rows[m.cursor].name },
                    ..m
                },
            )
        } else {
            Outcome::Show(m)
        }
    } else if plain && k.code == KeyCode::Char('r') {
        if m.cursor < m.rows.len() {
            let name = m.rows[m.cursor].name;
            Outcome::Show(
                PickModel {
                    status: None,
                    mode: ModeModel::Input {
                        buf: name,
                        pos: name.len() as int,
                        rename_of: Some(name),
                    },
                    ..m
                },
            )
        } else {
            Outcome::Show(m)
        }
    } else if plain && k.code == KeyCode::Char('f') {
        if m.cursor < m.rows.len() {
            chosen(m.rows[m.cursor].name, true)
        } else {
            Outcome::Show(m)
        }
    } else if plain && (k.code == KeyCode::Esc || k.code == KeyCode::Char('q')) {
        Outcome::Choose(None)
    } else if is_char(k, 'c', Held::Control) || is_char(k, 'g', Held::Control) {
        Outcome::Choose(None)
    } else {
        Outcome::Ignore
    }
}

/// Where the word before the cursor starts: after the last space that has
/// anything but white space between it and the cursor.
pub open spec fn word_start(before: Seq<char>) -> int {
    text::last_index(text::trim_end(before), ' ') + 1
}

/// A typed name and the place in it after a key; nothing where the key has no
/// meaning there.
pub open spec fn edited(buf: Seq<char>, pos: int, k: Key) -> Option<(Seq<char>, int)> {
    if is_char(k, 'a', Held::Control) || k.code == KeyCode::Home {
        Some((buf, 0))
    } else if is_char(k, 'e', Held::Control) || k.code == KeyCode::End {
        Some((buf, buf.len() as int))
    } else if is_char(k, 'u', Held::Control) {
        Some((buf.skip(pos), 0))
    } else if is_char(k, 'w', Held::Control) {
        let w = word_start(buf.take(pos));
        Some((buf.take(w) + buf.skip(pos), w))
    } else if k.code == KeyCode::Backspace {
        if pos > 0 {
            Some((buf.remove(pos - 1), pos - 1))
        } else {
            Some((buf, pos))
        }
    } else if k.code == KeyCode::Delete {
        if pos < buf.len() {
            Some((buf.remove(pos), pos))
        } else {
            Some((buf, pos))
        }
    } else if k.code == KeyCode::Left || is_char(k, 'b', Held::Control) {
        Some(
            (
                buf,
                if pos > 0 {
                    pos - 1
                } else {
                    0
                },
            ),
        )
    } else if k.code == KeyCode::Right || is_char(k, 'f', Held::Control) {
        Some(
            (
                buf,
                if pos < buf.len() {
                    pos + 1
                } else {
                    pos
                },
            ),
        )
    } else if k.code is Char && (k.held == Held::Nothing || k.held == Held::Shift) {
        Some((buf.insert(pos, k.code->Char_0), pos + 1))
    } else {
        None
    }
}

/// What the key that ends the typing does.
pub open spec fn on_typed(m: PickModel, buf: Seq<char>, rename_of: Option<Seq<char>>) -> Outcome {
    let input = text::trimmed(buf);
    let name = naming::full_name(input, m.client);
    match rename_of {
        Some(was) => if input.len() == 0 || name == was {
            Outcome::Show(PickModel { mode: ModeModel::Pick, ..m })
        } else {
            Outcome::Rename(PickModel { awaiting: Awaiting::Rename, ..m }, was, name)
        },
        None => if input.len() == 0 {
            Outcome::Show(PickModel { mode: ModeModel::Pick, cursor: m.rows.len() as int, ..m })
        } else {
            chosen(name, false)
        },
    }
}

/// What a key does while a name is typed.
pub open spec fn on_input(
    m: PickModel,
    buf: Seq<char>,
    pos: int,
    rename_of: Option<Seq<char>>,
    k: Key,
) -> Outcome {
    if k.code == KeyCode::Enter {
        on_typed(m, buf, rename_of)
    } else if k.code == KeyCode::Esc || is_char(k, 'c', Held::Control) || is_char(
        k,
        'g',
        Held::Control,
    ) {
        Outcome::Show(
            PickModel {
                status: None,
                mode: ModeModel::Pick,
                cursor: if rename_of is None {
                    m.rows.len() as int
                } else {
                    m.cursor
                },
                ..m
            },
        )
    } else {
        match edited(buf, pos, k) {
            Some((b, p)) => Outcome::Show(
                PickModel { mode: ModeModel::Input { buf: b, pos: p, rename_of }, ..m },
            ),
            None => Outcome::Ignore,
        }
    }
}

/// The cursor after the list got a new length: still on a row.
pub open spec fn pulled_in(cursor: int, len: nat) -> int {
    let last = if len == 0 {
        0
    } else {
        len - 1
    };
    if cursor < last {
        cursor
    } else {
        last
    }
}

/// The list with new rows, and moving about again.
pub open spec fn with_rows(m: PickModel, v: Seq<SessionEntry>, now: u64) -> PickModel {
    let rows = sessions::rows_of(v, m.client, now, m.home);
    PickModel {
        rows,
        cursor: pulled_in(m.cursor, rows.len()),
        mode: ModeModel::Pick,
        awaiting: Awaiting::Nothing,
        ..m
    }
}

/// What the server said, for the last line of the list.
pub open spec fn complaint(wish: Seq<char>, r: Reply) -> Option<Seq<char>> {
    match r {
        Reply::Granted => None,
        Reply::Refused(e) => Some(wish + " failed: "@ + e@),
        Reply::Unexpected(e) => Some(wish + " failed: unexpected response "@ + e@),
    }
}

/// What an event leads to.
pub open spec fn outcome(m: PickModel, event: PickerEvent) -> Outcome {
    match m.awaiting {
        Awaiting::Nothing => match event {
            PickerEvent::Unreadable => Outcome::Choose(None),
            PickerEvent::Key(k) => match m.mode {
                ModeModel::Pick => on_pick(m, k),
                ModeModel::ConfirmKill { name } => if k.code == KeyCode::Char('y') {
                    Outcome::Kill(PickModel { awaiting: Awaiting::Kill, ..m }, name)
                } else {
                    Outcome::Show(PickModel { mode: ModeModel::Pick, ..m })
                },
                ModeModel::Input { buf, pos, rename_of } => on_input(m, buf, pos, rename_of, k),
            },
            PickerEvent::Other => if m.mode is ConfirmKill {
                Outcome::Show(PickModel { mode: ModeModel::Pick, ..m })
            } else {
                Outcome::Ignore
            },
            _ => Outcome::Ignore,
        },
        Awaiting::Kill => match event {
            PickerEvent::Killed(r) => Outcome::List(
                PickModel {
                    status: complaint("kill"@, r),
                    awaiting: Awaiting::ListAfterKill,
                    ..m
                },
            ),
            _ => Outcome::Ignore,
        },
        Awaiting::ListAfterKill => match event {
            PickerEvent::Listed { sessions, now } => match sessions {
                Some(v) => if v@.len() == 0 {
                    chosen(naming::full_name("0"@, m.client), false)
                } else {
                    Outcome::Show(with_rows(m, v@, now))
                },
                None => Outcome::Show(
                    PickModel { mode: ModeModel::Pick, awaiting: Awaiting::Nothing, ..m },
                ),
            },
            _ => Outcome::Ignore,
        },
        Awaiting::Rename => match event {
            PickerEvent::Renamed(r) => match r {
                Reply::Granted => Outcome::List(
                    PickModel { status: None, awaiting: Awaiting::ListAfterRename, ..m },
                ),
                _ => Outcome::Show(
                    PickModel {
                        status: complaint("rename"@, r),
                        awaiting: Awaiting::Nothing,
                        ..m
                    },
                ),
            },
            _ => Outcome::Ignore,
        },
        Awaiting::ListAfterRename => match event {
            PickerEvent::Listed { sessions, now } => match sessions {
                Some(v) => Outcome::Show(with_rows(m, v@, now)),
                None => Outcome::Show(
                    PickModel { mode: ModeModel::Pick, awaiting: Awaiting::Nothing, ..m },
                ),
            },
            _ => Outcome::Ignore,
        },
    }
}

/// The lines that the list takes on the terminal, as far as a machine word
/// counts.
pub open spec fn line_count(m: PickModel) -> usize {
    let n = m.rows.len() + 3 + (if m.status is Some {
        1nat
    } else {
        0nat
    });
    if n <= usize::MAX {
        n as usize
    } else {
        usize::MAX
    }
}

/// `n` lines erased, one below the other.
pub open spec fn blank_lines(n: nat) -> Seq<char>
    decreases n,
{
    if n == 0 {
        seq![]
    } else {
        blank_lines((n - 1) as nat) + "\x1b[2K\r\n"@
    }
}

/// What takes the list off the terminal again.
pub open spec fn erase_text(lines: usize) -> Seq<char> {
    if lines == 0 {
        seq![]
    } else {
        let up = "\x1b["@ + text::decimal(lines as nat) + "A"@;
        up + blank_lines(lines as nat) + up
    }
}

/// The length of a text in bytes.
pub open spec fn byte_len(s: Seq<char>) -> usize {
    vstd::utf8::encode_utf8(s).len() as usize
}

/// A column of the list.
#[derive(Clone, Copy, PartialEq, Eq, Structural)]
pub enum Field {
    Name,
    Age,
    Cmd,
    Client,
}

pub open spec fn field_of(r: RowModel, f: Field) -> Seq<char> {
    match f {
        Field::Name => r.name,
        Field::Age => r.age,
        Field::Cmd => r.cmd,
        Field::Client => r.client,
    }
}

/// The width of a column: the most bytes that any of its texts has.
pub open spec fn widest(rows: Seq<RowModel>, f: Field) -> usize
    decreases rows.len(),
{
    if rows.len() == 0 {
        0
    } else {
        let rest = widest(rows.drop_last(), f);
        let here = byte_len(field_of(rows.last(), f));
        if here > rest {
            here
        } else {
            rest
        }
    }
}

/// The widths of the columns.
#[derive(Clone, Copy)]
pub struct Widths {
    pub name: usize,
    pub age: usize,
    pub cmd: usize,
    pub client: usize,
}

pub open spec fn widths_of(rows: Seq<RowModel>) -> Widths {
    Widths {
        name: if widest(rows, Field::Name) > 3 {
            widest(rows, Field::Name)
        } else {
            3
        },
        age: widest(rows, Field::Age),
        cmd: widest(rows, Field::Cmd),
        client: widest(rows, Field::Client),
    }
}

pub open spec fn hotkey_text(r: RowModel) -> Seq<char> {
    match r.hotkey {
        Some(c) => seq![c] + ")"@,
        None => "  "@,
    }
}

/// One row: bright where the cursor is, dim where somebody is attached.
pub open spec fn row_text(r: RowModel, w: Widths, under: bool) -> Seq<char> {
    let name = text::padded(r.name, w.name as nat);
    let age = text::padded(r.age, w.age as nat);
    let cmd = text::padded(r.cmd, w.cmd as nat);
    let client = text::padded(r.client, w.client as nat);
    let tag = text::padded(
        if r.attached {
            "(attached)"@
        } else {
            ""@
        },
        10,
    );
    if under {
        "\x1b[32;1m\u{25b8}\x1b[0m \x1b[2m"@ + hotkey_text(r) + "\x1b[0m \x1b[32;1m"@ + name
            + "\x1b[0m  "@ + tag + "  \x1b[32m"@ + age + "\x1b[0m  \x1b[32m"@ + cmd
            + "\x1b[0m  \x1b[32m"@ + client + "\x1b[0m  \x1b[32m"@ + r.cwd + "\x1b[0m\r\n"@
    } else if r.attached {
        "  \x1b[2m"@ + hotkey_text(r) + " "@ + name + "  "@ + tag + "  "@ + age + "  "@ + cmd + "  "@
            + client + "  "@ + r.cwd + "\x1b[0m\r\n"@
    } else {
        "  \x1b[2m"@ + hotkey_text(r) + "\x1b[0m "@ + name + "  "@ + tag + "  "@ + age + "  "@ + cmd
            + "  "@ + client + "  "@ + r.cwd + "\r\n"@
    }
}

/// The rows, one below the other.
pub open spec fn rows_text(rows: Seq<RowModel>, w: Widths, cursor: int) -> Seq<char>
    decreases rows.len(),
{
    if rows.len() == 0 {
        seq![]
    } else {
        rows_text(rows.drop_last(), w, cursor) + row_text(
            rows.last(),
            w,
            rows.len() - 1 == cursor,
        )
    }
}

/// The character under the cursor of a typed name: a blank at its end.
pub open spec fn cursor_char(buf: Seq<char>, pos: int) -> char {
    if pos < buf.len() {
        buf[pos]
    } else {
        ' '
    }
}

/// The row for a new session, or the name that is typed.
pub open spec fn entry_text(m: PickModel) -> Seq<char> {
    match m.mode {
        ModeModel::Input { buf, pos, rename_of } => {
            "\x1b[32;1m\u{25b8}\x1b[0m \x1b[2m"@ + (if rename_of is Some {
                "r)"@
            } else {
                "+)"@
            }) + "\x1b[0m \x1b[32;1m"@ + buf.take(pos) + "\x1b[7m"@ + seq![cursor_char(buf, pos)]
                + "\x1b[27m"@ + buf.skip(
                if pos < buf.len() {
                    pos + 1
                } else {
                    buf.len() as int
                },
            ) + "\x1b[0m\r\n"@
        },
        _ => {
            let name = sessions::suggestion(m.rows, m.client);
            if m.cursor == m.rows.len() {
                "\x1b[32;1m\u{25b8}\x1b[0m \x1b[2m+)\x1b[0m \x1b[32;1mnew session \x1b[2m("@ + name
                    + ")\x1b[0m\r\n"@
            } else {
                "  \x1b[2m+) new session ("@ + name + ")\x1b[0m\r\n"@
            }
        },
    }
}

/// What the keys do, in words.
pub open spec fn hint_text(mode: ModeModel) -> Seq<char> {
    match mode {
        ModeModel::Pick => "1-9 jump  enter select  f force  n new  c/+ new (named)  r rename  x kill  esc quit"@,
        ModeModel::Input { rename_of, .. } => if rename_of is Some {
            "enter rename  esc back"@
        } else {
            "enter create  esc back"@
        },
        ModeModel::ConfirmKill { name } => "kill "@ + name + "? y/n"@,
    }
}

/// The list on the terminal, in place of the lines that are there.
pub open spec fn render(m: PickModel) -> Seq<char> {
    let typing = m.mode is Input;
    erase_text(m.lines) + (if typing {
        "\x1b[?25h"@
    } else {
        "\x1b[?25l"@
    }) + "\x1b[36;1mPick a session on "@ + m.host + ":\x1b[0m\r\n"@ + rows_text(
        m.rows,
        widths_of(m.rows),
        if typing {
            -1
        } else {
            m.cursor
        },
    ) + entry_text(m) + "\x1b[2m  "@ + hint_text(m.mode) + "\x1b[0m\r\n"@ + (match m.status {
        Some(s) => "\x1b[31m  "@ + s + "\x1b[0m\r\n"@,
        None => ""@,
    })
}

/// The list once it is on the terminal.
pub open spec fn drawn(m: PickModel) -> PickModel {
    PickModel { lines: line_count(m), ..m }
}

pub open spec fn choice_view(c: Option<(String, bool)>) -> Option<(Seq<char>, bool)> {
    match c {
        Some((name, force)) => Some((name@, force)),
        None => None,
    }
}

/// The step from one state to the next, and what to do then.
pub open spec fn picker_effect(
    pre: PickModel,
    event: PickerEvent,
    post: PickModel,
    action: PickerAction,
) -> bool {
    match outcome(pre, event) {
        Outcome::Ignore => post == pre && action is Wait,
        Outcome::Show(m) => {
            &&& post == drawn(m)
            &&& action is Draw && action->Draw_0@ == render(m)
        },
        Outcome::Choose(c) => {
            &&& post == pre
            &&& action is Finish && choice_view(action->choice) == c
            &&& action->erase@ == erase_text(pre.lines)
        },
        Outcome::Kill(m, name) => {
            &&& post == m
            &&& action is Kill && action->Kill_session@ == name
        },
        Outcome::Rename(m, was, name) => {
            &&& post == m
            &&& action is Rename && action->Rename_session@ == was && action->new_name@ == name
        },
        Outcome::List(m) => post == m && action is List,
    }
}

fn erase(lines: usize) -> (r: String)
    ensures
        r@ == erase_text(lines),
{
    if lines == 0 {
        return String::new();
    }
    let number = decimal_text(lines as u64);
    let up = cat3("\x1b[", number.as_str(), "A");
    let mut r = copy(up.as_str());
    let mut i: usize = 0;
    assert(up@ + blank_lines(0) == up@);
    while i < lines
        invariant
            i <= lines,
            r@ == up@ + blank_lines(i as nat),
        decreases lines - i,
    {
        r.append("\x1b[2K\r\n");
        assert(up@ + blank_lines(i as nat) + "\x1b[2K\r\n"@ == up@ + (blank_lines(i as nat)
            + "\x1b[2K\r\n"@));
        i = i + 1;
    }
    r.append(up.as_str());
    r
}

fn field<'a>(r: &'a Row, f: Field) -> (s: &'a str)
    ensures
        s@ == field_of(r@, f),
{
    match f {
        Field::Name => r.name.as_str(),
        Field::Age => r.age.as_str(),
        Field::Cmd => r.cmd.as_str(),
        Field::Client => r.client.as_str(),
    }
}

fn width(rows: &Vec<Row>, f: Field) -> (w: usize)
    ensures
        w == widest(sessions::row_views(rows@), f),
{
    let ghost all = sessions::row_views(rows@);
    let mut w: usize = 0;
    let mut i: usize = 0;
    assert(all.take(0) == Seq::<RowModel>::empty());
    while i < rows.len()
        invariant
            i <= rows@.len(),
            all == sessions::row_views(rows@),
            w == widest(all.take(i as int), f),
        decreases rows@.len() - i,
    {
        proof {
            assert(all.take(i + 1).drop_last() == all.take(i as int));
            assert(all.take(i + 1).last() == rows@[i as int]@);
        }
        let here: usize = field(&rows[i], f).len();
        if here > w {
            w = here;
        }
        i = i + 1;
    }
    assert(all.take(i as int) == all);
    w
}

fn row_line(r: &Row, w: Widths, under: bool) -> (s: String)
    ensures
        s@ == row_text(r@, w, under),
{
    let name = pad_right(r.name.as_str(), w.name);
    let age = pad_right(r.age.as_str(), w.age);
    let cmd = pad_right(r.cmd.as_str(), w.cmd);
    let client = pad_right(r.client.as_str(), w.client);
    let word = if r.attached {
        "(attached)"
    } else {
        ""
    };
    let tag = pad_right(word, 10);
    let hotkey = match r.hotkey {
        Some(c) => {
            let mut t = String::new();
            t.push(c);
            assert(t@ == seq![c]);
            t.append(")");
            t
        },
        None => copy("  "),
    };
    if under {
        let mut s = cat7(
            "\x1b[32;1m\u{25b8}\x1b[0m \x1b[2m",
            hotkey.as_str(),
            "\x1b[0m \x1b[32;1m",
            name.as_str(),
            "\x1b[0m  ",
            tag.as_str(),
            "  \x1b[32m",
        );
        s.append(age.as_str());
        s.append("\x1b[0m  \x1b[32m");
        s.append(cmd.as_str());
        s.append("\x1b[0m  \x1b[32m");
        s.append(client.as_str());
        s.append("\x1b[0m  \x1b[32m");
        s.append(r.cwd.as_str());
        s.append("\x1b[0m\r\n");
        s
    } else {
        let gap = if r.attached {
            " "
        } else {
            "\x1b[0m "
        };
        let mut s = cat7(
            "  \x1b[2m",
            hotkey.as_str(),
            gap,
            name.as_str(),
            "  ",
            tag.as_str(),
            "  ",
        );
        s.append(age.as_str());
        s.append("  ");
        s.append(cmd.as_str());
        s.append("  ");
        s.append(client.as_str());
        s.append("  ");
        s.append(r.cwd.as_str());
        if r.attached {
            s.append("\x1b[0m\r\n");
        } else {
            s.append("\r\n");
        }
        s
    }
}

/// `buf` without the characters from `from` up to `to`.
fn cut_out(buf: &Vec<char>, from: usize, to: usize) -> (r: Vec<char>)
    requires
        from <= to <= buf@.len(),
    ensures
        r@ == buf@.take(from as int) + buf@.skip(to as int),
{
    let mut r: Vec<char> = Vec::new();
    let mut i: usize = 0;
    while i < from
        invariant
            i <= from <= buf@.len(),
            r@ == buf@.take(i as int),
        decreases from - i,
    {
        r.push(buf[i]);
        assert(buf@.take(i + 1) == buf@.take(i as int).push(buf@[i as int]));
        i = i + 1;
    }
    let mut k: usize = to;
    assert(r@ == buf@.take(from as int) + buf@.subrange(to as int, k as int));
    while k < buf.len()
        invariant
            to <= k <= buf@.len(),
            r@ == buf@.take(from as int) + buf@.subrange(to as int, k as int),
        decreases buf@.len() - k,
    {
        r.push(buf[k]);
        assert(r@ == buf@.take(from as int) + buf@.subrange(to as int, k + 1));
        k = k + 1;
    }
    assert(buf@.subrange(to as int, k as int) == buf@.skip(to as int));
    r
}

fn find_word_start(buf: &Vec<char>, pos: usize) -> (w: usize)
    requires
        pos <= buf@.len(),
    ensures
        w == word_start(buf@.take(pos as int)),
        w <= pos,
{
    let mut e: usize = pos;
    while e > 0 && space(buf[e - 1])
        invariant
            e <= pos <= buf@.len(),
            text::trim_end(buf@.take(e as int)) == text::trim_end(buf@.take(pos as int)),
        decreases e,
    {
        assert(buf@.take(e as int).drop_last() == buf@.take(e - 1));
        assert(buf@.take(e as int).last() == buf@[e - 1]);
        e = e - 1;
    }
    proof {
        if e > 0 {
            assert(buf@.take(e as int).last() == buf@[e - 1]);
        }
        assert(text::trim_end(buf@.take(pos as int)) == buf@.take(e as int));
    }
    let mut w: usize = e;
    while w > 0 && buf[w - 1] != ' '
        invariant
            w <= e <= buf@.len(),
            text::last_index(buf@.take(w as int), ' ') == text::last_index(
                buf@.take(e as int),
                ' ',
            ),
        decreases w,
    {
        assert(buf@.take(w as int).drop_last() == buf@.take(w - 1));
        assert(buf@.take(w as int).last() == buf@[w - 1]);
        w = w - 1;
    }
    proof {
        if w > 0 {
            assert(buf@.take(w as int).last() == buf@[w - 1]);
        }
    }
    w
}

/// A typed name and the place in it after a key; nothing where the key has no
/// meaning there.
pub fn edit(buf: &Vec<char>, pos: usize, k: Key) -> (r: Option<(Vec<char>, usize)>)
    requires
        pos <= buf@.len(),
        buf@.len() < usize::MAX,
    ensures
        match edited(buf@, pos as int, k) {
            Some((b, p)) => r is Some && (r->0).0@ == b && (r->0).1 == p && p <= b.len(),
            None => r is None,
        },
{
    let control = k.held == Held::Control;
    let size: usize = buf.len();
    if (control && k.code == KeyCode::Char('a')) || k.code == KeyCode::Home {
        let same_buf = cut_out(buf, size, size);
        assert(same_buf@ == buf@);
        Some((same_buf, 0))
    } else if (control && k.code == KeyCode::Char('e')) || k.code == KeyCode::End {
        let same_buf = cut_out(buf, size, size);
        assert(same_buf@ == buf@);
        Some((same_buf, size))
    } else if control && k.code == KeyCode::Char('u') {
        let b = cut_out(buf, 0, pos);
        assert(b@ == buf@.skip(pos as int));
        Some((b, 0))
    } else if control && k.code == KeyCode::Char('w') {
        let w: usize = find_word_start(buf, pos);
        Some((cut_out(buf, w, pos), w))
    } else if k.code == KeyCode::Backspace {
        if pos > 0 {
            let b = cut_out(buf, pos - 1, pos);
            assert(b@ == buf@.remove(pos - 1));
            Some((b, pos - 1))
        } else {
            let same_buf = cut_out(buf, size, size);
            assert(same_buf@ == buf@);
            Some((same_buf, pos))
        }
    } else if k.code == KeyCode::Delete {
        if pos < size {
            let b = cut_out(buf, pos, pos + 1);
            assert(b@ == buf@.remove(pos as int));
            Some((b, pos))
        } else {
            let same_buf = cut_out(buf, size, size);
            assert(same_buf@ == buf@);
            Some((same_buf, pos))
        }
    } else if k.code == KeyCode::Left || (control && k.code == KeyCode::Char('b')) {
        let same_buf = cut_out(buf, size, size);
        assert(same_buf@ == buf@);
        Some(
            (
                same_buf,
                if pos > 0 {
                    pos - 1
                } else {
                    0
                },
            ),
        )
    } else if k.code == KeyCode::Right || (control && k.code == KeyCode::Char('f')) {
        let same_buf = cut_out(buf, size, size);
        assert(same_buf@ == buf@);
        Some(
            (
                same_buf,
                if pos < size {
                    pos + 1
                } else {
                    pos
                },
            ),
        )
    } else if k.held == Held::Nothing || k.held == Held::Shift {
        match k.code {
            KeyCode::Char(c) => {
                let mut b = cut_out(buf, size, size);
                assert(b@ == buf@);
                b.insert(pos, c);
                Some((b, pos + 1))
            },
            _ => None,
        }
    } else {
        None
    }
}

/// The place of the first row whose session nobody is attached to; the first
/// place where there is none.
pub open spec fn first_detached(rows: Seq<RowModel>) -> int {
    if forall|i: int| 0 <= i < rows.len() ==> (#[trigger] rows[i]).attached {
        0
    } else {
        choose|i: int|
            0 <= i < rows.len() && !(#[trigger] rows[i]).attached && forall|j: int|
                0 <= j < i ==> (#[trigger] rows[j]).attached
    }
}

fn find_detached(rows: &Vec<Row>) -> (r: usize)
    ensures
        r == first_detached(sessions::row_views(rows@)),
        r <= rows@.len(),
{
    let ghost all = sessions::row_views(rows@);
    assert(all.len() == rows@.len());
    let mut i: usize = 0;
    while i < rows.len()
        invariant
            i <= rows@.len(),
            all == sessions::row_views(rows@),
            forall|j: int| 0 <= j < i ==> (#[trigger] all[j]).attached,
        decreases rows@.len() - i,
    {
        assert(all[i as int] == rows@[i as int]@);
        if !rows[i].attached {
            proof {
                let f = first_detached(all);
                assert(0 <= i < all.len() && !all[i as int].attached);
                assert(0 <= f < all.len() && !all[f].attached);
                if f < i {
                    assert(all[f].attached);
                }
                if i < f {
                    assert(all[i as int].attached);
                }
            }
            return i;
        }
        i = i + 1;
    }
    0
}

/// The list as it comes up, before it is drawn.
pub open spec fn opened(
    host: Seq<char>,
    v: Seq<SessionEntry>,
    client: Seq<char>,
    now: u64,
    home: Seq<char>,
) -> PickModel {
    let rows = sessions::rows_of(v, client, now, home);
    PickModel {
        host,
        client,
        home,
        rows,
        cursor: first_detached(rows),
        mode: ModeModel::Pick,
        status: None,
        lines: 0,
        awaiting: Awaiting::Nothing,
    }
}

impl Picker {
    /// Open the list. The text is what to write to the terminal first.
    pub fn open(
        host: &str,
        v: &Vec<SessionEntry>,
        client_name: &str,
        now: u64,
        home: &str,
    ) -> (r: (Picker, String))
        ensures
            r.0@ == drawn(opened(host@, v@, client_name@, now, home@)),
            r.1@ == render(opened(host@, v@, client_name@, now, home@)),
            in_bounds(r.0@),
    {
        let rows = build_rows(v, client_name, now, home);
        let cursor: usize = find_detached(&rows);
        let mut p = Picker {
            host: copy(host),
            client_name: copy(client_name),
            home: copy(home),
            rows,
            cursor,
            mode: Mode::Pick,
            status: None,
            lines: 0,
            awaiting: Awaiting::Nothing,
        };
        let ghost m = p@;
        assert(m == opened(host@, v@, client_name@, now, home@));
        assert(m.rows.len() == p.rows@.len());
        let t = p.draw();
        (p, t)
    }

    /// Put the list on the terminal.
    fn draw(&mut self) -> (r: String)
        requires
            in_bounds(old(self)@),
        ensures
            r@ == render(old(self)@),
            final(self)@ == drawn(old(self)@),
    {
        let ghost m = self@;
        let ghost all = m.rows;
        assert(all.len() == self.rows@.len());
        let w = Widths {
            name: {
                let n: usize = width(&self.rows, Field::Name);
                if n > 3 {
                    n
                } else {
                    3
                }
            },
            age: width(&self.rows, Field::Age),
            cmd: width(&self.rows, Field::Cmd),
            client: width(&self.rows, Field::Client),
        };
        assert(w == widths_of(all));
        let typing = match &self.mode {
            Mode::Input { .. } => true,
            _ => false,
        };
        let off = erase(self.lines);
        let show = if typing {
            "\x1b[?25h"
        } else {
            "\x1b[?25l"
        };
        let mut r = cat5(
            off.as_str(),
            show,
            "\x1b[36;1mPick a session on ",
            self.host.as_str(),
            ":\x1b[0m\r\n",
        );
        let ghost head = r@;
        let ghost at = if typing {
            -1
        } else {
            m.cursor
        };
        let mut i: usize = 0;
        assert(all.take(0) == Seq::<RowModel>::empty());
        assert(head + rows_text(all.take(0), w, at) == head);
        while i < self.rows.len()
            invariant
                i <= self.rows@.len(),
                self@ == m,
                all == sessions::row_views(self.rows@),
                at == (if typing {
                    -1
                } else {
                    m.cursor
                }),
                r@ == head + rows_text(all.take(i as int), w, at),
            decreases self.rows@.len() - i,
        {
            proof {
                assert(all.take(i + 1).drop_last() == all.take(i as int));
                assert(all.take(i + 1).last() == self.rows@[i as int]@);
            }
            let line = row_line(&self.rows[i], w, !typing && i == self.cursor);
            let ghost done = rows_text(all.take(i as int), w, at);
            assert(head + done + line@ == head + (done + line@));
            r.append(line.as_str());
            i = i + 1;
        }
        assert(all.take(i as int) == all);
        let entry = self.entry();
        r.append(entry.as_str());
        r.append("\x1b[2m  ");
        let hint = match &self.mode {
            Mode::Pick => copy(
                "1-9 jump  enter select  f force  n new  c/+ new (named)  r rename  x kill  esc quit",
            ),
            Mode::Input { rename_of, .. } => if rename_of.is_some() {
                copy("enter rename  esc back")
            } else {
                copy("enter create  esc back")
            },
            Mode::ConfirmKill { name } => cat3("kill ", name.as_str(), "? y/n"),
        };
        r.append(hint.as_str());
        r.append("\x1b[0m\r\n");
        let last = match &self.status {
            Some(s) => cat3("\x1b[31m  ", s.as_str(), "\x1b[0m\r\n"),
            None => copy(""),
        };
        r.append(last.as_str());
        let extra: usize = if self.status.is_some() {
            4
        } else {
            3
        };
        self.lines = self.rows.len().saturating_add(extra);
        r
    }

    /// The row for a new session, or the name that is typed.
    fn entry(&self) -> (r: String)
        requires
            in_bounds(self@),
        ensures
            r@ == entry_text(self@),
    {
        match &self.mode {
            Mode::Input { buf, pos, rename_of } => {
                let sign = if rename_of.is_some() {
                    "r)"
                } else {
                    "+)"
                };
                let before = text::text_between(buf, 0, *pos);
                assert(before@ == buf@.take(*pos as int));
                let under: char = if *pos < buf.len() {
                    buf[*pos]
                } else {
                    ' '
                };
                let from: usize = if *pos < buf.len() {
                    *pos + 1
                } else {
                    buf.len()
                };
                let rest = text::text_between(buf, from, buf.len());
                assert(rest@ == buf@.skip(from as int));
                let mut one = String::new();
                one.push(under);
                assert(one@ == seq![under]);
                let mut r = cat7(
                    "\x1b[32;1m\u{25b8}\x1b[0m \x1b[2m",
                    sign,
                    "\x1b[0m \x1b[32;1m",
                    before.as_str(),
                    "\x1b[7m",
                    one.as_str(),
                    "\x1b[27m",
                );
                r.append(rest.as_str());
                r.append("\x1b[0m\r\n");
                r
            },
            _ => {
                let name = suggest_name(&self.rows, self.client_name.as_str());
                assert(self@.rows.len() == self.rows@.len());
                if self.cursor == self.rows.len() {
                    cat3(
                        "\x1b[32;1m\u{25b8}\x1b[0m \x1b[2m+)\x1b[0m \x1b[32;1mnew session \x1b[2m(",
                        name.as_str(),
                        ")\x1b[0m\r\n",
                    )
                } else {
                    cat3("  \x1b[2m+) new session (", name.as_str(), ")\x1b[0m\r\n")
                }
            },
        }
    }

    fn finish(&self, choice: Option<(String, bool)>) -> (a: PickerAction)
        ensures
            a is Finish,
            a->choice == choice,
            a->erase@ == erase_text(self@.lines),
    {
        PickerAction::Finish { choice, erase: erase(self.lines) }
    }

    fn take_suggestion(&self) -> (a: PickerAction)
        ensures
            a is Finish,
            choice_view(a->choice) == Some(
                (sessions::suggestion(self@.rows, self@.client), false),
            ),
            a->erase@ == erase_text(self@.lines),
    {
        let name = suggest_name(&self.rows, self.client_name.as_str());
        self.finish(Some((name, false)))
    }

    fn take_row(&self, i: usize, force: bool) -> (a: PickerAction)
        requires
            i < self.rows@.len(),
        ensures
            a is Finish,
            choice_view(a->choice) == Some((self@.rows[i as int].name, force)),
            a->erase@ == erase_text(self@.lines),
    {
        let name = copy(self.rows[i].name.as_str());
        self.finish(Some((name, force)))
    }

    /// A key while moving about.
    fn step_pick(&mut self, k: Key) -> (action: PickerAction)
        requires
            in_bounds(old(self)@),
            old(self)@.mode is Pick,
            old(self)@.awaiting == Awaiting::Nothing,
        ensures
            picker_effect(old(self)@, PickerEvent::Key(k), final(self)@, action),
    {
        let plain = k.held == Held::Nothing;
        let ghost pre = self@;
        assert(pre.rows.len() == self.rows@.len());
        if plain && (k.code == KeyCode::Up || k.code == KeyCode::Char('k')) {
            self.cursor = self.cursor.saturating_sub(1);
        } else if plain && (k.code == KeyCode::Down || k.code == KeyCode::Char('j')) {
            if self.cursor < self.rows.len() {
                self.cursor = self.cursor + 1;
            }
        } else if k.code == KeyCode::Enter {
            if self.cursor < self.rows.len() {
                return self.take_row(self.cursor, false);
            }
            return self.take_suggestion();
        } else if plain && k.code == KeyCode::Char('n') {
            return self.take_suggestion();
        } else if plain && (k.code == KeyCode::Char('c') || k.code == KeyCode::Char('+')) {
            let full = suggest_name(&self.rows, self.client_name.as_str());
            let name = display_session_name(full.as_str(), self.client_name.as_str());
            let buf = chars_of(name.as_str());
            let pos: usize = buf.len();
            self.cursor = self.rows.len();
            self.status = None;
            self.mode = Mode::Input { buf, pos, rename_of: None };
        } else if plain && (k.code == KeyCode::Char('x') || k.code == KeyCode::Delete) {
            if self.cursor < self.rows.len() {
                let name = copy(self.rows[self.cursor].name.as_str());
                self.status = None;
                self.mode = Mode::ConfirmKill { name };
            }
        } else if plain && k.code == KeyCode::Char('r') {
            if self.cursor < self.rows.len() {
                let name = copy(self.rows[self.cursor].name.as_str());
                let buf = chars_of(name.as_str());
                let pos: usize = buf.len();
                self.status = None;
                self.mode = Mode::Input { buf, pos, rename_of: Some(name) };
            }
        } else if plain && k.code == KeyCode::Char('f') {
            if self.cursor < self.rows.len() {
                return self.take_row(self.cursor, true);
            }
        } else if plain && (k.code == KeyCode::Esc || k.code == KeyCode::Char('q')) {
            return self.finish(None);
        } else if k.held == Held::Control && (k.code == KeyCode::Char('c') || k.code
            == KeyCode::Char('g')) {
            return self.finish(None);
        } else {
            match k.code {
                KeyCode::Char(c) => {
                    if !(plain && '1' <= c && c <= '9') {
                        return PickerAction::Wait;
                    }
                    let i: usize = (c as u32 - 0x31) as usize;
                    if i < self.rows.len() {
                        return self.take_row(i, false);
                    }
                },
                _ => {
                    return PickerAction::Wait;
                },
            }
        }
        PickerAction::Draw(self.draw())
    }

    /// A key while a name is typed.
    fn step_input(&mut self, k: Key) -> (action: PickerAction)
        requires
            in_bounds(old(self)@),
            old(self)@.mode is Input,
            old(self)@.mode->buf.len() < usize::MAX,
            old(self)@.awaiting == Awaiting::Nothing,
        ensures
            picker_effect(old(self)@, PickerEvent::Key(k), final(self)@, action),
    {
        let ghost pre = self@;
        assert(pre.rows.len() == self.rows@.len());
        let back = k.code == KeyCode::Esc || (k.held == Held::Control && (k.code == KeyCode::Char(
            'c',
        ) || k.code == KeyCode::Char('g')));
        match &self.mode {
            Mode::Input { buf, pos, rename_of } => {
                if k.code == KeyCode::Enter {
                    let typed = text_of(buf);
                    let input = trim(typed.as_str());
                    let name = resolve_session_name(input.as_str(), self.client_name.as_str());
                    let empty = input.as_str().unicode_len() == 0;
                    match rename_of {
                        Some(was) => {
                            if empty || same(name.as_str(), was.as_str()) {
                                self.mode = Mode::Pick;
                            } else {
                                let session = copy(was.as_str());
                                self.awaiting = Awaiting::Rename;
                                return PickerAction::Rename { session, new_name: name };
                            }
                        },
                        None => {
                            if empty {
                                self.mode = Mode::Pick;
                                self.cursor = self.rows.len();
                            } else {
                                return self.finish(Some((name, false)));
                            }
                        },
                    }
                } else if back {
                    if rename_of.is_none() {
                        self.cursor = self.rows.len();
                    }
                    self.status = None;
                    self.mode = Mode::Pick;
                } else {
                    match edit(buf, *pos, k) {
                        Some((b, p)) => {
                            let keep = match rename_of {
                                Some(was) => Some(copy(was.as_str())),
                                None => None,
                            };
                            self.mode = Mode::Input { buf: b, pos: p, rename_of: keep };
                        },
                        None => {
                            return PickerAction::Wait;
                        },
                    }
                }
            },
            _ => {},
        }
        PickerAction::Draw(self.draw())
    }

    /// Take in new rows and move about again.
    fn refresh(&mut self, v: &Vec<SessionEntry>, now: u64)
        ensures
            final(self)@ == with_rows(old(self)@, v@, now),
    {
        let ghost pre = self@;
        self.rows = build_rows(v, self.client_name.as_str(), now, self.home.as_str());
        let last: usize = self.rows.len().saturating_sub(1);
        if self.cursor > last {
            self.cursor = last;
        }
        self.mode = Mode::Pick;
        self.awaiting = Awaiting::Nothing;
        assert(self@.rows.len() == self.rows@.len());
    }

    /// Take in what happened.
    pub fn step(&mut self, event: PickerEvent) -> (action: PickerAction)
        requires
            in_bounds(old(self)@),
            old(self)@.mode is Input ==> old(self)@.mode->buf.len() < usize::MAX,
        ensures
            picker_effect(old(self)@, event, final(self)@, action),
            in_bounds(final(self)@),
    {
        let ghost pre = self@;
        proof {
            law_cursor_stays_in_bounds(pre, event);
        }
        match self.awaiting {
            Awaiting::Nothing => match event {
                PickerEvent::Unreadable => self.finish(None),
                PickerEvent::Key(k) => {
                    match &self.mode {
                        Mode::ConfirmKill { name } => {
                            if k.code == KeyCode::Char('y') {
                                let session = copy(name.as_str());
                                self.awaiting = Awaiting::Kill;
                                return PickerAction::Kill { session };
                            }
                        },
                        Mode::Pick => {
                            return self.step_pick(k);
                        },
                        Mode::Input { .. } => {
                            return self.step_input(k);
                        },
                    }
                    self.mode = Mode::Pick;
                    PickerAction::Draw(self.draw())
                },
                PickerEvent::Other => {
                    match &self.mode {
                        Mode::ConfirmKill { .. } => {},
                        _ => {
                            return PickerAction::Wait;
                        },
                    }
                    self.mode = Mode::Pick;
                    PickerAction::Draw(self.draw())
                },
                _ => PickerAction::Wait,
            },
            Awaiting::Kill => match event {
                PickerEvent::Killed(r) => {
                    self.status = reply_text("kill", r);
                    self.awaiting = Awaiting::ListAfterKill;
                    PickerAction::List
                },
                _ => PickerAction::Wait,
            },
            Awaiting::ListAfterKill => match event {
                PickerEvent::Listed { sessions, now } => {
                    match sessions {
                        Some(v) => {
                            if v.len() == 0 {
                                let name = resolve_session_name("0", self.client_name.as_str());
                                return self.finish(Some((name, false)));
                            }
                            self.refresh(&v, now);
                        },
                        None => {
                            self.mode = Mode::Pick;
                            self.awaiting = Awaiting::Nothing;
                        },
                    }
                    PickerAction::Draw(self.draw())
                },
                _ => PickerAction::Wait,
            },
            Awaiting::Rename => match event {
                PickerEvent::Renamed(r) => {
                    match r {
                        Reply::Granted => {
                            self.status = None;
                            self.awaiting = Awaiting::ListAfterRename;
                            return PickerAction::List;
                        },
                        _ => {},
                    }
                    self.status = reply_text("rename", r);
                    self.awaiting = Awaiting::Nothing;
                    PickerAction::Draw(self.draw())
                },
                _ => PickerAction::Wait,
            },
            Awaiting::ListAfterRename => match event {
                PickerEvent::Listed { sessions, now } => {
                    match sessions {
                        Some(v) => {
                            self.refresh(&v, now);
                        },
                        None => {
                            self.mode = Mode::Pick;
                            self.awaiting = Awaiting::Nothing;
                        },
                    }
                    PickerAction::Draw(self.draw())
                },
                _ => PickerAction::Wait,
            },
        }
    }
}

fn reply_text(wish: &str, r: Reply) -> (t: Option<String>)
    ensures
        text::owned_view(t) == complaint(wish@, r),
{
    match r {
        Reply::Granted => None,
        Reply::Refused(e) => Some(cat3(wish, " failed: ", e.as_str())),
        Reply::Unexpected(e) => Some(cat3(wish, " failed: unexpected response ", e.as_str())),
    }
}

/// The list that an outcome leaves.
pub open spec fn left(m: PickModel, o: Outcome) -> PickModel {
    match o {
        Outcome::Ignore => m,
        Outcome::Show(q) => q,
        Outcome::Choose(_) => m,
        Outcome::Kill(q, _) => q,
        Outcome::Rename(q, _, _) => q,
        Outcome::List(q) => q,
    }
}

/// Whatever happens, the cursor stays on a row or on the one for a new
/// session, and the place in a typed name within it.
pub proof fn law_cursor_stays_in_bounds(m: PickModel, event: PickerEvent)
    requires
        in_bounds(m),
    ensures
        in_bounds(left(m, outcome(m, event))),
{
    if m.mode is Input {
        let before = m.mode->buf.take(m.mode->pos);
        text::lemma_last_index(text::trim_end(before), ' ');
        lemma_trim_end_shorter(before);
    }
}

proof fn lemma_trim_end_shorter(s: Seq<char>)
    ensures
        text::trim_end(s).len() <= s.len(),
    decreases s.len(),
{
    if s.len() > 0 && text::is_space(s.last()) {
        lemma_trim_end_shorter(s.drop_last());
    }
}

/// Where some session is detached, the list comes up with the cursor on the
/// first such row, and Enter picks a session that nobody is attached to.
pub proof fn law_opens_on_a_detached_session(
    host: Seq<char>,
    v: Seq<SessionEntry>,
    client: Seq<char>,
    now: u64,
    home: Seq<char>,
    k: Key,
)
    requires
        exists|i: int| 0 <= i < v.len() && !(#[trigger] v[i]).attached,
        k.code == KeyCode::Enter,
    ensures
        ({
            let m = drawn(opened(host, v, client, now, home));
            &&& 0 <= m.cursor < m.rows.len()
            &&& !m.rows[m.cursor].attached
            &&& forall|j: int| 0 <= j < m.cursor ==> (#[trigger] m.rows[j]).attached
            &&& outcome(m, PickerEvent::Key(k)) == chosen(m.rows[m.cursor].name, false)
            &&& exists|i: int|
                0 <= i < v.len() && !(#[trigger] v[i]).attached && sessions::wire_name(v[i])
                    == m.rows[m.cursor].name
        }),
{
    broadcast use vstd::seq_lib::group_to_multiset_ensures;

    sessions::law_own_first_keeps_all(v, client);
    let all = sessions::own_first(v, client);
    let rows = sessions::rows_of(v, client, now, home);
    let d = choose|i: int| 0 <= i < v.len() && !(#[trigger] v[i]).attached;
    assert(v.contains(v[d]));
    assert(all.to_multiset().count(v[d]) > 0);
    assert(all.contains(v[d]));
    let e = choose|e: int| 0 <= e < all.len() && all[e] == v[d];
    assert(!rows[e].attached);
    lemma_first_detached(rows, e);
    let f = first_detached(rows);
    assert(all.contains(all[f]));
    assert(v.to_multiset().count(all[f]) > 0);
    assert(v.contains(all[f]));
    let i = choose|i: int| 0 <= i < v.len() && v[i] == all[f];
    assert(!v[i].attached && sessions::wire_name(v[i]) == rows[f].name);
}

proof fn lemma_first_detached(rows: Seq<RowModel>, e: int)
    requires
        0 <= e < rows.len(),
        !rows[e].attached,
    ensures
        0 <= first_detached(rows) < rows.len(),
        !rows[first_detached(rows)].attached,
        forall|j: int| 0 <= j < first_detached(rows) ==> (#[trigger] rows[j]).attached,
    decreases e,
{
    if exists|j: int| 0 <= j < e && !(#[trigger] rows[j]).attached {
        let j = choose|j: int| 0 <= j < e && !(#[trigger] rows[j]).attached;
        lemma_first_detached(rows, j);
    } else {
        assert(0 <= e < rows.len() && !rows[e].attached && forall|j: int|
            0 <= j < e ==> (#[trigger] rows[j]).attached);
    }
}

/// A session is killed only after a yes to the question that names it.
pub proof fn law_kill_needs_a_yes(
    pre: PickModel,
    event: PickerEvent,
    post: PickModel,
    action: PickerAction,
)
    requires
        picker_effect(pre, event, post, action),
        action is Kill,
    ensures
        pre.mode is ConfirmKill,
        action->Kill_session@ == pre.mode->name,
        event is Key && event->Key_0.code == KeyCode::Char('y'),
{
}

/// Only the key for it takes a session over from somebody else.
pub proof fn law_take_over_needs_its_key(
    pre: PickModel,
    event: PickerEvent,
    post: PickModel,
    action: PickerAction,
)
    requires
        picker_effect(pre, event, post, action),
        in_bounds(pre),
        action is Finish,
        choice_view(action->choice) is Some,
        (choice_view(action->choice)->0).1,
    ensures
        pre.mode is Pick,
        0 <= pre.cursor < pre.rows.len(),
        event is Key && event->Key_0 == (Key { code: KeyCode::Char('f'), held: Held::Nothing }),
{
}

/// A refused rename leaves the typed name where it was.
pub proof fn law_refused_rename_keeps_the_name(
    pre: PickModel,
    r: Reply,
    post: PickModel,
    action: PickerAction,
)
    requires
        picker_effect(pre, PickerEvent::Renamed(r), post, action),
        pre.awaiting == Awaiting::Rename,
        r !is Granted,
    ensures
        post.mode == pre.mode,
        post.rows == pre.rows,
        post.status is Some,
        post.awaiting == Awaiting::Nothing,
{
}

/// Whether keys move about in a list, and nothing is under way.
pub open spec fn is_moving_about(m: PickModel) -> bool {
    m.mode is Pick && m.awaiting is Nothing && in_bounds(m)
}

/// A key alone.
pub open spec fn tap(code: KeyCode) -> PickerEvent {
    PickerEvent::Key(Key { code, held: Held::Nothing })
}

/// Enter picks the session under the cursor, and the number that stands before
/// a session picks that one, wherever the cursor is; neither takes it over.
pub proof fn law_keys_pick_what_they_show(
    pre: PickModel,
    k: Key,
    post: PickModel,
    action: PickerAction,
    v: Seq<SessionEntry>,
    now: u64,
    i: int,
)
    requires
        picker_effect(pre, PickerEvent::Key(k), post, action),
        is_moving_about(pre),
        pre.rows == sessions::rows_of(v, pre.client, now, pre.home),
        0 <= i < pre.rows.len(),
        k.code is Enter && pre.cursor == i || k.held is Nothing && k.code is Char
            && pre.rows[i].hotkey == Some(k.code->Char_0),
    ensures
        action is Finish,
        choice_view(action->choice) == Some((pre.rows[i].name, false)),
{
    if k.code is Char {
        assert(pre.rows[i].hotkey == sessions::hotkey_of(i));
        let c = k.code->Char_0;
        assert(c == (0x31 + i) as char);
        assert(c as int == 0x31 + i);
    }
}

/// The row after the last, and the key for it, make a session under a name
/// that no row has.
pub proof fn law_new_sessions_get_a_free_name(
    pre: PickModel,
    k: Key,
    post: PickModel,
    action: PickerAction,
)
    requires
        picker_effect(pre, PickerEvent::Key(k), post, action),
        is_moving_about(pre),
        k.code is Enter && pre.cursor == pre.rows.len() || k == (Key {
            code: KeyCode::Char('n'),
            held: Held::Nothing,
        }),
    ensures
        action is Finish,
        choice_view(action->choice) is Some,
        !(choice_view(action->choice)->0).1,
        forall|i: int|
            0 <= i < pre.rows.len() ==> (#[trigger] pre.rows[i]).name != (choice_view(
                action->choice,
            )->0).0,
{
    sessions::law_suggested_name_is_free(pre.rows, pre.client);
}

/// The cursor moves by one row, up or down, and stops at the ends; nothing else
/// changes.
pub proof fn law_cursor_moves_by_one(
    pre: PickModel,
    k: KeyCode,
    post: PickModel,
    action: PickerAction,
)
    requires
        picker_effect(pre, tap(k), post, action),
        is_moving_about(pre),
        k == KeyCode::Up || k == KeyCode::Down || k == KeyCode::Char('k') || k == KeyCode::Char(
            'j',
        ),
    ensures
        action is Draw,
        post.rows == pre.rows && post.mode == pre.mode && post.awaiting == pre.awaiting
            && post.status == pre.status,
        k == KeyCode::Up || k == KeyCode::Char('k') ==> post.cursor == (if pre.cursor == 0 {
            0
        } else {
            pre.cursor - 1
        }),
        k == KeyCode::Down || k == KeyCode::Char('j') ==> post.cursor == (if pre.cursor
            == pre.rows.len() {
            pre.cursor
        } else {
            pre.cursor + 1
        }),
{
}

/// The keys for it leave the list without a choice.
pub proof fn law_leaving_chooses_nothing(
    pre: PickModel,
    k: Key,
    post: PickModel,
    action: PickerAction,
)
    requires
        picker_effect(pre, PickerEvent::Key(k), post, action),
        is_moving_about(pre),
        k.held is Nothing && (k.code is Esc || k.code == KeyCode::Char('q')) || k.held is Control
            && (k.code == KeyCode::Char('c') || k.code == KeyCode::Char('g')),
    ensures
        action is Finish,
        choice_view(action->choice) is None,
{
}

/// The session that is killed is the one that was under the cursor when the
/// question came up, after a yes; any other key takes the question back.
pub proof fn law_the_session_asked_about_is_killed(
    pre: PickModel,
    ask: KeyCode,
    between: PickModel,
    shown: PickerAction,
    k: Key,
    post: PickModel,
    action: PickerAction,
)
    requires
        picker_effect(pre, tap(ask), between, shown),
        is_moving_about(pre),
        pre.cursor < pre.rows.len(),
        ask == KeyCode::Char('x') || ask == KeyCode::Delete,
        picker_effect(between, PickerEvent::Key(k), post, action),
    ensures
        shown is Draw,
        if k.code == KeyCode::Char('y') {
            action is Kill && action->Kill_session@ == pre.rows[pre.cursor].name
        } else {
            action is Draw && is_moving_about(post) && post.rows == pre.rows && post.cursor
                == pre.cursor
        },
{
}

/// A rename begins with the session's own name to be edited, and asks for what
/// was typed, in place of that name; an empty or unchanged name asks for
/// nothing.
pub proof fn law_the_session_asked_about_is_renamed(
    pre: PickModel,
    between: PickModel,
    shown: PickerAction,
    typed: PickModel,
    post: PickModel,
    action: PickerAction,
)
    requires
        picker_effect(pre, tap(KeyCode::Char('r')), between, shown),
        is_moving_about(pre),
        pre.cursor < pre.rows.len(),
        typed.mode is Input && typed.mode->rename_of == between.mode->rename_of,
        typed.awaiting is Nothing,
        typed.client == pre.client,
        picker_effect(typed, tap(KeyCode::Enter), post, action),
    ensures
        between.mode is Input,
        between.mode->buf == pre.rows[pre.cursor].name,
        between.mode->pos == between.mode->buf.len(),
        ({
            let input = text::trimmed(typed.mode->buf);
            let name = naming::full_name(input, pre.client);
            if input.len() == 0 || name == pre.rows[pre.cursor].name {
                action is Draw && post.mode is Pick
            } else {
                action is Rename && action->Rename_session@ == pre.rows[pre.cursor].name
                    && action->new_name@ == name
            }
        }),
{
}

/// A name that is typed for a new session is the one that is chosen, under the
/// client's own prefix unless it has one.
pub proof fn law_a_typed_name_is_chosen(typed: PickModel, post: PickModel, action: PickerAction)
    requires
        typed.mode is Input && typed.mode->rename_of is None,
        typed.awaiting is Nothing,
        picker_effect(typed, tap(KeyCode::Enter), post, action),
    ensures
        ({
            let input = text::trimmed(typed.mode->buf);
            if input.len() == 0 {
                action is Draw && post.mode is Pick
            } else {
                action is Finish && choice_view(action->choice) == Some(
                    (naming::full_name(input, typed.client), false),
                )
            }
        }),
{
}

/// What a key does to what is typed, in the list.
pub proof fn law_typing_shows(
    pre: PickModel,
    k: Key,
    post: PickModel,
    action: PickerAction,
)
    requires
        picker_effect(pre, PickerEvent::Key(k), post, action),
        pre.mode is Input,
        pre.awaiting is Nothing,
        k.held is Nothing || k.held is Shift,
        k.code is Char,
    ensures
        action is Draw,
        post.mode is Input,
        post.mode->rename_of == pre.mode->rename_of,
        post.mode->buf == pre.mode->buf.insert(pre.mode->pos, k.code->Char_0),
        post.mode->pos == pre.mode->pos + 1,
        post.rows == pre.rows && post.cursor == pre.cursor,
{
}

/// The keys for editing belong together: a backspace takes back what was typed,
/// right undoes left, delete is a backspace from one further on, and the keys
/// for the two ends go there and change nothing.
pub proof fn law_editing_keys_agree(buf: Seq<char>, pos: int, c: char)
    requires
        0 <= pos <= buf.len(),
    ensures
        ({
            let plain = |code: KeyCode| Key { code, held: Held::Nothing };
            let typed = edited(buf, pos, plain(KeyCode::Char(c)));
            let left = edited(buf, pos, plain(KeyCode::Left));
            let right = edited(buf, pos, plain(KeyCode::Right));
            &&& typed is Some && (typed->0).0.len() == buf.len() + 1 && (typed->0).0[pos] == c
            &&& edited((typed->0).0, (typed->0).1, plain(KeyCode::Backspace)) == Some((buf, pos))
            &&& pos > 0 ==> left is Some && edited(
                (left->0).0,
                (left->0).1,
                plain(KeyCode::Right),
            ) == Some((buf, pos))
            &&& pos == 0 ==> left == Some((buf, pos))
            &&& pos == buf.len() ==> right == Some((buf, pos))
            &&& pos < buf.len() ==> right is Some && edited(
                (right->0).0,
                (right->0).1,
                plain(KeyCode::Backspace),
            ) == edited(buf, pos, plain(KeyCode::Delete))
            &&& edited(buf, pos, plain(KeyCode::Home)) == Some((buf, 0int))
            &&& edited(buf, pos, plain(KeyCode::End)) == Some((buf, buf.len() as int))
        }),
{
    let typed = buf.insert(pos, c);
    assert(typed.remove(pos) =~= buf);
}

/// The key for it cuts everything before the cursor; the one for a word cuts
/// back to a space, at least one character where there is any, and leaves
/// what is after the cursor.
pub proof fn law_cutting_keys_keep_the_rest(buf: Seq<char>, pos: int)
    requires
        0 <= pos <= buf.len(),
    ensures
        ({
            let ctrl = |c: char| Key { code: KeyCode::Char(c), held: Held::Control };
            let line = edited(buf, pos, ctrl('u'));
            let word = edited(buf, pos, ctrl('w'));
            &&& line == Some((buf.skip(pos), 0int))
            &&& word is Some
            &&& 0 <= (word->0).1 <= pos
            &&& (word->0).0 == buf.take((word->0).1) + buf.skip(pos)
            &&& pos > 0 ==> (word->0).1 < pos
            &&& (word->0).1 == 0 || buf[(word->0).1 - 1] == ' '
        }),
{
    let before = buf.take(pos);
    let t = text::trim_end(before);
    text::lemma_last_index(t, ' ');
    lemma_trim_end_shorter(before);
    lemma_trim_end_takes(before);
    let w = word_start(before);
    if w > 0 {
        assert(t[w - 1] == ' ');
        assert(buf[w - 1] == t[w - 1]);
    }
    if t.len() > 0 && w == t.len() {
        assert(t.last() == ' ');
        assert(text::is_space(' '));
    }
}

proof fn lemma_trim_end_takes(s: Seq<char>)
    ensures
        text::trim_end(s) == s.take(text::trim_end(s).len() as int),
        text::trim_end(s).len() <= s.len(),
        text::trim_end(s).len() > 0 ==> !text::is_space(text::trim_end(s).last()),
    decreases s.len(),
{
    if s.len() > 0 && text::is_space(s.last()) {
        lemma_trim_end_takes(s.drop_last());
        let n = text::trim_end(s).len() as int;
        assert(s.drop_last().take(n) =~= s.take(n));
    } else {
        assert(s.take(s.len() as int) =~= s);
    }
}

/// After a kill or a rename that went through, the list is fetched anew and
/// shows the sessions that are there, with the cursor still on one of them.
pub proof fn law_the_list_is_brought_up_to_date(
    pre: PickModel,
    reply: PickerEvent,
    between: PickModel,
    asked: PickerAction,
    v: Vec<SessionEntry>,
    now: u64,
    post: PickModel,
    action: PickerAction,
)
    requires
        in_bounds(pre),
        pre.awaiting is Kill && reply is Killed || pre.awaiting is Rename && reply
            == PickerEvent::Renamed(Reply::Granted),
        picker_effect(pre, reply, between, asked),
        picker_effect(between, PickerEvent::Listed { sessions: Some(v), now }, post, action),
        v@.len() > 0,
    ensures
        asked is List,
        action is Draw,
        post.mode is Pick && post.awaiting is Nothing,
        post.rows == sessions::rows_of(v@, pre.client, now, pre.home),
        post.rows.len() == v@.len(),
        0 <= post.cursor < post.rows.len(),
        pre.cursor < post.rows.len() ==> post.cursor == pre.cursor,
        post.status is Some <==> reply is Killed && reply->Killed_0 !is Granted,
{
    sessions::law_own_first_keeps_all(v@, pre.client);
}

} // verus!
