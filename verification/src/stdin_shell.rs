//! The command console: reads the operator's lines, turns them into
//! requests to the supervisor and prints what the supervisor sends back.

use crate::text::{
    chars_of,
    decimal_text,
    is_space,
    is_whitespace,
    parsed_handle,
    push_decimal,
    read_handle,
};
use crate::window::WindowHandle;
use vstd::prelude::*;
use vstd::string::{StrSliceExecFns, StringExecFns};

verus! {

/// What the supervisor may ask of the console.
#[derive(Clone, Debug, PartialEq, Eq)]
pub enum StdinShellCommand {
    Quit,
    Output { message: String },
}

/// A [`StdinShellCommand`] as mathematical values.
pub enum StdinShellCommandView {
    Quit,
    Output { message: Seq<char> },
}

impl View for StdinShellCommand {
    type V = StdinShellCommandView;

    open spec fn view(&self) -> StdinShellCommandView {
        match self {
            StdinShellCommand::Quit => StdinShellCommandView::Quit,
            StdinShellCommand::Output { message } => StdinShellCommandView::Output {
                message: message@,
            },
        }
    }
}

/// What the console tells the supervisor.
#[derive(Clone, Debug, PartialEq, Eq)]
pub enum StdinShellMessage {
    QuitRequested,
    AllowHWND(Vec<WindowHandle>),
    ListRequested,
}

/// A [`StdinShellMessage`] as mathematical values.
pub enum StdinShellMessageView {
    QuitRequested,
    AllowHWND(Seq<WindowHandle>),
    ListRequested,
}

impl View for StdinShellMessage {
    type V = StdinShellMessageView;

    open spec fn view(&self) -> StdinShellMessageView {
        match self {
            StdinShellMessage::QuitRequested => StdinShellMessageView::QuitRequested,
            StdinShellMessage::AllowHWND(hwnds) => StdinShellMessageView::AllowHWND(hwnds@),
            StdinShellMessage::ListRequested => StdinShellMessageView::ListRequested,
        }
    }
}

/// What a line of the operator asks for.
#[derive(Clone, Debug, PartialEq, Eq)]
pub enum UserInput {
    Nop,
    Quit,
    AllowHWND(Vec<WindowHandle>),
    List,
    Scan,
}

/// A [`UserInput`] as mathematical values.
pub enum UserInputView {
    Nop,
    Quit,
    AllowHWND(Seq<WindowHandle>),
    List,
    Scan,
}

impl View for UserInput {
    type V = UserInputView;

    open spec fn view(&self) -> UserInputView {
        match self {
            UserInput::Nop => UserInputView::Nop,
            UserInput::Quit => UserInputView::Quit,
            UserInput::AllowHWND(hwnds) => UserInputView::AllowHWND(hwnds@),
            UserInput::List => UserInputView::List,
            UserInput::Scan => UserInputView::Scan,
        }
    }
}

/// How many characters at the start of `text` are no white space.
pub open spec fn word_len(text: Seq<char>) -> nat
    decreases text.len(),
{
    if text.len() == 0 || is_space(text[0]) {
        0
    } else {
        1 + word_len(text.drop_first())
    }
}

/// A word is no longer than the text it starts.
pub proof fn lemma_word_len_bound(text: Seq<char>)
    ensures
        word_len(text) <= text.len(),
    decreases text.len(),
{
    if text.len() > 0 && !is_space(text[0]) {
        lemma_word_len_bound(text.drop_first());
    }
}

/// The words of `text`: its longest runs of characters that are no white
/// space, in order.
pub open spec fn words(text: Seq<char>) -> Seq<Seq<char>>
    decreases text.len(),
{
    if text.len() == 0 {
        Seq::empty()
    } else if is_space(text[0]) {
        words(text.drop_first())
    } else {
        proof {
            lemma_word_len_bound(text);
        }
        seq![text.take(word_len(text) as int)] + words(text.skip(word_len(text) as int))
    }
}

/// The texts that the index pairs of `spans` cut out of `text`.
pub open spec fn span_texts(text: Seq<char>, spans: Seq<(usize, usize)>) -> Seq<Seq<char>> {
    Seq::new(spans.len(), |i: int| text.subrange(spans[i].0 as int, spans[i].1 as int))
}

/// Where the words of `chars` start and end.
fn split(chars: &Vec<char>) -> (spans: Vec<(usize, usize)>)
    ensures
        span_texts(chars@, spans@) == words(chars@),
        forall|i: int| 0 <= i < spans@.len() ==> (#[trigger] spans@[i]).0 < spans@[i].1 <= chars@.len(),
{
    let mut spans: Vec<(usize, usize)> = Vec::new();
    let mut i: usize = 0;
    assert(chars@.skip(0) =~= chars@);
    assert(span_texts(chars@, spans@) + words(chars@) =~= words(chars@));
    while i < chars.len()
        invariant
            i <= chars@.len(),
            span_texts(chars@, spans@) + words(chars@.skip(i as int)) == words(chars@),
            forall|k: int|
                0 <= k < spans@.len() ==> (#[trigger] spans@[k]).0 < spans@[k].1 <= chars@.len(),
        decreases chars@.len() - i,
    {
        let ghost rest = chars@.skip(i as int);
        assert(rest[0] == chars@[i as int]);
        if is_whitespace(chars[i]) {
            assert(rest.drop_first() =~= chars@.skip(i + 1));
            i = i + 1;
        } else {
            let mut j: usize = i + 1;
            assert(rest.drop_first() =~= chars@.skip(j as int));
            while j < chars.len() && !is_whitespace(chars[j])
                invariant
                    i < j <= chars@.len(),
                    word_len(chars@.skip(i as int)) == (j - i) + word_len(chars@.skip(j as int)),
                decreases chars@.len() - j,
            {
                assert(chars@.skip(j as int)[0] == chars@[j as int]);
                assert(chars@.skip(j as int).drop_first() =~= chars@.skip(j + 1));
                j = j + 1;
            }
            proof {
                if j < chars@.len() {
                    assert(chars@.skip(j as int)[0] == chars@[j as int]);
                }
                assert(word_len(rest) == j - i);
                assert(rest.take(j - i) =~= chars@.subrange(i as int, j as int));
                assert(rest.skip(j - i) =~= chars@.skip(j as int));
                let before = span_texts(chars@, spans@);
                assert(span_texts(chars@, spans@.push((i, j))) =~= before + seq![
                    chars@.subrange(i as int, j as int),
                ]);
                assert(before + (seq![chars@.subrange(i as int, j as int)] + words(
                    chars@.skip(j as int),
                )) =~= before + seq![chars@.subrange(i as int, j as int)] + words(
                    chars@.skip(j as int),
                ));
            }
            spans.push((i, j));
            i = j;
        }
    }
    assert(span_texts(chars@, spans@) + words(chars@.skip(i as int)) =~= span_texts(
        chars@,
        spans@,
    ));
    spans
}

/// Whether `chars[from..to]` starts with `prefix`.
fn starts_with(chars: &Vec<char>, from: usize, to: usize, prefix: &str) -> (yes: bool)
    requires
        from <= to <= chars@.len(),
    ensures
        yes == prefix@.is_prefix_of(chars@.subrange(from as int, to as int)),
{
    let ghost text = chars@.subrange(from as int, to as int);
    let wanted = chars_of(prefix);
    if wanted.len() > to - from {
        return false;
    }
    let mut i: usize = 0;
    while i < wanted.len()
        invariant
            i <= wanted@.len() <= to - from,
            from <= to <= chars@.len(),
            wanted@ == prefix@,
            text == chars@.subrange(from as int, to as int),
            forall|k: int| 0 <= k < i ==> wanted@[k] == text[k],
        decreases wanted@.len() - i,
    {
        if wanted[i] != chars[from + i] {
            assert(text[i as int] == chars@[from + i]);
            assert(prefix@[i as int] != text.subrange(0, prefix@.len() as int)[i as int]);
            return false;
        }
        assert(text[i as int] == chars@[from + i]);
        i = i + 1;
    }
    assert(prefix@ =~= text.subrange(0, prefix@.len() as int));
    true
}

/// Whether `chars[from..to]` is `word`.
fn is_word(chars: &Vec<char>, from: usize, to: usize, word: &str) -> (yes: bool)
    requires
        from <= to <= chars@.len(),
    ensures
        yes == (chars@.subrange(from as int, to as int) == word@),
{
    let ghost text = chars@.subrange(from as int, to as int);
    let same_start = starts_with(chars, from, to, word);
    let same_len = word.unicode_len() == to - from;
    proof {
        if same_start && same_len {
            assert(text.subrange(0, text.len() as int) =~= text);
        }
        if text == word@ {
            assert(word@ =~= text.subrange(0, word@.len() as int));
        }
    }
    same_start && same_len
}

/// A window that the operator may name by a letter.
#[derive(Clone, Debug, PartialEq, Eq)]
pub struct ScanEntry {
    alias: Option<char>,
    hwnd: WindowHandle,
    title: String,
}

/// A [`ScanEntry`] as mathematical values.
pub struct ScanEntryView {
    pub alias: Option<char>,
    pub hwnd: WindowHandle,
    pub title: Seq<char>,
}

impl View for ScanEntry {
    type V = ScanEntryView;

    closed spec fn view(&self) -> ScanEntryView {
        ScanEntryView { alias: self.alias, hwnd: self.hwnd, title: self.title@ }
    }
}

impl ScanEntry {
    /// The letter that stands for the window, if it has one.
    pub fn alias(&self) -> (alias: Option<char>)
        ensures
            alias == self@.alias,
    {
        self.alias
    }

    /// The window.
    pub fn hwnd(&self) -> (hwnd: WindowHandle)
        ensures
            hwnd == self@.hwnd,
    {
        self.hwnd
    }

    /// The window's title.
    pub fn title(&self) -> (title: &str)
        ensures
            title@ == self@.title,
    {
        self.title.as_str()
    }
}

/// The views of a run of entries.
pub open spec fn entry_views(entries: Seq<ScanEntry>) -> Seq<ScanEntryView> {
    entries.map_values(|entry: ScanEntry| entry@)
}

/// The window that `alias` stands for: that of the first entry with this letter.
pub open spec fn alias_target(entries: Seq<ScanEntryView>, alias: char) -> Option<WindowHandle>
    decreases entries.len(),
{
    if entries.len() == 0 {
        None
    } else if entries[0].alias == Some(alias) {
        Some(entries[0].hwnd)
    } else {
        alias_target(entries.drop_first(), alias)
    }
}

/// The window that one argument of `allow` names: the window that a single
/// letter stands for, or else the handle that the argument denotes.
pub open spec fn named_window(entries: Seq<ScanEntryView>, arg: Seq<char>) -> Option<
    WindowHandle,
> {
    if arg.len() == 1 && alias_target(entries, arg[0]) is Some {
        alias_target(entries, arg[0])
    } else {
        parsed_handle(arg)
    }
}

/// The first of `args` that names no window.
pub open spec fn first_unknown(entries: Seq<ScanEntryView>, args: Seq<Seq<char>>) -> Option<
    Seq<char>,
>
    decreases args.len(),
{
    if args.len() == 0 {
        None
    } else if named_window(entries, args[0]) is None {
        Some(args[0])
    } else {
        first_unknown(entries, args.drop_first())
    }
}

/// The windows that `args` name, in order.
pub open spec fn named_windows(entries: Seq<ScanEntryView>, args: Seq<Seq<char>>) -> Seq<
    WindowHandle,
> {
    args.map_values(|arg: Seq<char>| named_window(entries, arg).unwrap())
}

/// What a line asks for, or what is wrong with it.
///
/// A line without words asks for nothing. The first word decides: `quit`,
/// `list` and `scan` stand for themselves, whatever follows them. A first
/// word that starts with `allow` is followed by at least one window, each
/// named by its letter in the last scan or by its handle. Anything else is
/// an unknown command.
pub open spec fn parsed_line(entries: Seq<ScanEntryView>, line: Seq<char>) -> Result<
    UserInputView,
    Seq<char>,
> {
    let args = words(line);
    if args.len() == 0 {
        Ok(UserInputView::Nop)
    } else if args[0] == "quit"@ {
        Ok(UserInputView::Quit)
    } else if args[0] == "list"@ {
        Ok(UserInputView::List)
    } else if args[0] == "scan"@ {
        Ok(UserInputView::Scan)
    } else if "allow"@.is_prefix_of(args[0]) {
        if args.len() == 1 {
            Err("allow needs at least one HWND"@)
        } else {
            match first_unknown(entries, args.skip(1)) {
                Some(arg) => Err("unknown HWND "@ + arg + " in allow"@),
                None => Ok(UserInputView::AllowHWND(named_windows(entries, args.skip(1)))),
            }
        }
    } else {
        Err("unknown command: "@ + line)
    }
}

/// A top-level window as the window system lists it.
#[derive(Clone, Debug, PartialEq, Eq)]
pub struct FoundWindow {
    pub hwnd: WindowHandle,
    pub title: String,
    pub style: i32,
}

/// The style bits of a window that is visible and has a title bar.
pub const NORMAL_WINDOW_STYLE: i32 = 0x10C0_0000;

/// Whether a window of style `style` is visible and has a title bar.
pub open spec fn is_normal_style(style: i32) -> bool {
    style & NORMAL_WINDOW_STYLE == NORMAL_WINDOW_STYLE
}

/// The windows of `found` that are visible and have a title bar, in order
/// and without letters.
pub open spec fn normal_windows(found: Seq<FoundWindow>) -> Seq<ScanEntryView>
    decreases found.len(),
{
    if found.len() == 0 {
        Seq::empty()
    } else if is_normal_style(found.last().style) {
        normal_windows(found.drop_last()).push(
            ScanEntryView { alias: None, hwnd: found.last().hwnd, title: found.last().title@ },
        )
    } else {
        normal_windows(found.drop_last())
    }
}

/// The letters that stand for windows, in the order in which they are given out.
pub open spec fn alias_letters() -> Seq<char> {
    "ABCDEFGHIJKLMNOPQRSTUVWXYZ"@
}

/// The letter of the entry at place `i`: entries beyond the alphabet have none.
pub open spec fn alias_at(i: int) -> Option<char> {
    if 0 <= i < 26 {
        Some(alias_letters()[i])
    } else {
        None
    }
}

/// `entries` with their letters.
pub open spec fn aliased(entries: Seq<ScanEntryView>) -> Seq<ScanEntryView> {
    Seq::new(entries.len(), |i: int| ScanEntryView { alias: alias_at(i), ..entries[i] })
}

/// `text` behind as many blanks as it is short of `width` characters.
pub open spec fn right_aligned(text: Seq<char>, width: nat) -> Seq<char> {
    if text.len() >= width {
        text
    } else {
        Seq::new((width - text.len()) as nat, |i: int| ' ') + text
    }
}

/// The line that shows one entry: its letter, its handle in decimal in a
/// column of eight, and its title.
pub open spec fn entry_line(entry: ScanEntryView) -> Seq<char> {
    "| "@ + seq![
        match entry.alias {
            Some(letter) => letter,
            None => ' ',
        },
    ] + ") ["@ + right_aligned(decimal_text(entry.hwnd.0 as int), 8) + "] "@ + entry.title
        + "\n"@
}

/// What a scan prints: a heading, then one line for each entry.
pub open spec fn listing(entries: Seq<ScanEntryView>) -> Seq<char>
    decreases entries.len(),
{
    if entries.len() == 0 {
        "Opened windows:\n"@
    } else {
        listing(entries.drop_last()) + entry_line(entries.last())
    }
}

/// Whether a window of style `style` is visible and has a title bar.
pub fn is_normal_window(style: i32) -> (normal: bool)
    ensures
        normal == is_normal_style(style),
{
    style & NORMAL_WINDOW_STYLE == NORMAL_WINDOW_STYLE
}

/// Keeps the windows that are visible and have a title bar.
pub fn enumerate_windows(found: Vec<FoundWindow>) -> (entries: Vec<ScanEntry>)
    ensures
        entry_views(entries@) == normal_windows(found@),
{
    let ghost all = found@;
    let mut entries: Vec<ScanEntry> = Vec::new();
    assert(all.take(0) =~= Seq::empty());
    assert(entry_views(entries@) =~= Seq::empty());
    for window in it: found
        invariant
            it.seq() == all,
            entry_views(entries@) == normal_windows(all.take(it.index() as int)),
    {
        let ghost taken = all.take(it.index() + 1);
        assert(taken.drop_last() =~= all.take(it.index() as int));
        assert(taken.last() == window);
        if is_normal_window(window.style) {
            let entry = ScanEntry { alias: None, hwnd: window.hwnd, title: window.title };
            let ghost before = entries@;
            entries.push(entry);
            assert(entry_views(entries@) =~= entry_views(before).push(entry@));
        }
    }
    assert(all.take(all.len() as int) =~= all);
    entries
}

/// Appends `text` to `out`, behind the blanks that fill it up to eight characters.
fn push_right_aligned(out: &mut String, text: &str)
    ensures
        final(out)@ == old(out)@ + right_aligned(text@, 8),
{
    let len = text.unicode_len();
    let mut blanks: usize = 0;
    proof {
        reveal_strlit(" ");
        assert(out@ =~= old(out)@ + Seq::new(0, |i: int| ' '));
    }
    while len < 8 && blanks < 8 - len
        invariant
            len == text@.len(),
            " "@ == seq![' '],
            len < 8 ==> blanks <= 8 - len,
            len >= 8 ==> blanks == 0,
            out@ == old(out)@ + Seq::new(blanks as nat, |i: int| ' '),
        decreases 8 - blanks,
    {
        let ghost before = out@;
        out.append(" ");
        blanks = blanks + 1;
        assert(out@ =~= old(out)@ + Seq::new(blanks as nat, |i: int| ' '));
    }
    let ghost filled = out@;
    out.append(text);
    assert(out@ == filled + text@);
    assert(out@ =~= old(out)@ + right_aligned(text@, 8));
}

/// What the console does next.
#[derive(Clone, Debug, PartialEq, Eq)]
pub enum ShellEffect {
    /// Send a message to the supervisor.
    Send(StdinShellMessage),
    /// Print a text.
    Print(String),
    /// List the top-level windows and hand them to [`StdinShell::scan`].
    Scan,
    /// Stop serving.
    Stop,
}

/// A [`ShellEffect`] as mathematical values.
pub enum ShellEffectView {
    Send(StdinShellMessageView),
    Print(Seq<char>),
    Scan,
    Stop,
}

impl View for ShellEffect {
    type V = ShellEffectView;

    open spec fn view(&self) -> ShellEffectView {
        match self {
            ShellEffect::Send(message) => ShellEffectView::Send(message@),
            ShellEffect::Print(text) => ShellEffectView::Print(text@),
            ShellEffect::Scan => ShellEffectView::Scan,
            ShellEffect::Stop => ShellEffectView::Stop,
        }
    }
}

/// The views of a run of effects.
pub open spec fn effect_views(effects: Seq<ShellEffect>) -> Seq<ShellEffectView> {
    effects.map_values(|effect: ShellEffect| effect@)
}

/// What the console does with what a line asks for.
pub open spec fn reaction(input: Result<UserInputView, Seq<char>>) -> Seq<ShellEffectView> {
    match input {
        Ok(UserInputView::Nop) => Seq::empty(),
        Ok(UserInputView::Quit) => seq![
            ShellEffectView::Send(StdinShellMessageView::QuitRequested),
            ShellEffectView::Stop,
        ],
        Ok(UserInputView::AllowHWND(hwnds)) => seq![
            ShellEffectView::Send(StdinShellMessageView::AllowHWND(hwnds)),
        ],
        Ok(UserInputView::List) => seq![
            ShellEffectView::Send(StdinShellMessageView::ListRequested),
            ShellEffectView::Print("Requesting allowed HWNDs, press Enter to refresh..."@),
        ],
        Ok(UserInputView::Scan) => seq![ShellEffectView::Scan],
        Err(problem) => seq![ShellEffectView::Print("shell: "@ + problem)],
    }
}

/// The line that stands for the end of the operator's input.
pub open spec fn end_of_input() -> Seq<char> {
    "quit"@
}

/// What the reader of the operator's input hands on after one attempt to
/// read, and whether it goes on reading. When the input has ended it hands
/// on `quit` once and stops.
pub fn keep_asking(read: Option<String>) -> (handed_on: (String, bool))
    ensures
        match read {
            Some(line) => handed_on.0@ == line@ && handed_on.1,
            None => handed_on.0@ == end_of_input() && !handed_on.1,
        },
{
    match read {
        Some(line) => (line, true),
        None => (String::from_str("quit"), false),
    }
}

/// The console's own state: the windows found by the last scan.
pub struct StdinShell {
    scan_result: Vec<ScanEntry>,
}

impl StdinShell {
    /// The windows found by the last scan, with their letters.
    pub closed spec fn entries(&self) -> Seq<ScanEntryView> {
        entry_views(self.scan_result@)
    }

    /// A console that has not scanned yet.
    pub fn new() -> (shell: Self)
        ensures
            shell.entries() == Seq::<ScanEntryView>::empty(),
    {
        let shell = StdinShell { scan_result: Vec::new() };
        assert(shell.entries() =~= Seq::empty());
        shell
    }

    /// The windows found by the last scan, with their letters.
    pub fn scan_result(&self) -> (entries: &Vec<ScanEntry>)
        ensures
            entry_views(entries@) == self.entries(),
    {
        &self.scan_result
    }

    /// Takes in the windows that the window system lists: those that are
    /// visible and have a title bar are kept, the first twenty-six of them
    /// get the letters `A` to `Z`, and the text that shows them is returned.
    pub fn scan(&mut self, found: Vec<FoundWindow>) -> (text: String)
        ensures
            final(self).entries() == aliased(normal_windows(found@)),
            text@ == listing(final(self).entries()),
    {
        let entries = enumerate_windows(found);
        let ghost plain = entry_views(entries@);
        let ghost lettered = aliased(plain);
        let letters = "ABCDEFGHIJKLMNOPQRSTUVWXYZ";
        proof {
            reveal_strlit("ABCDEFGHIJKLMNOPQRSTUVWXYZ");
            reveal_strlit(" ");
            assert(lettered.take(0) =~= Seq::empty());
        }
        let mut text = String::from_str("Opened windows:\n");
        let mut scan_result: Vec<ScanEntry> = Vec::new();
        assert(entry_views(scan_result@) =~= lettered.take(0));
        for entry in it: entries
            invariant
                entry_views(it.seq()) == plain,
                lettered == aliased(plain),
                letters@ == alias_letters(),
                letters@.len() == 26,
                " "@ == seq![' '],
                entry_views(scan_result@) == lettered.take(it.index() as int),
                text@ == listing(lettered.take(it.index() as int)),
        {
            let i: usize = scan_result.len();
            assert(i == it.index());
            assert(plain[i as int] == entry@);
            let ghost taken = lettered.take(i + 1);
            let (alias, letter) = if i < 26 {
                (Some(letters.get_char(i)), letters.substring_char(i, i + 1))
            } else {
                (None, " ")
            };
            let lettered_entry = ScanEntry { alias, hwnd: entry.hwnd, title: entry.title };
            proof {
                assert(taken.drop_last() =~= lettered.take(i as int));
                assert(taken.last() == lettered_entry@);
                assert(letter@ =~= seq![
                    match alias {
                        Some(c) => c,
                        None => ' ',
                    },
                ]);
            }
            let ghost before = text@;
            text.append("| ");
            text.append(letter);
            text.append(") [");
            let mut number = String::new();
            push_decimal(&mut number, lettered_entry.hwnd);
            assert(number@ =~= decimal_text(lettered_entry.hwnd.0 as int));
            push_right_aligned(&mut text, number.as_str());
            text.append("] ");
            text.append(lettered_entry.title.as_str());
            text.append("\n");
            assert(text@ =~= before + entry_line(lettered_entry@));
            let ghost listed = scan_result@;
            scan_result.push(lettered_entry);
            assert(entry_views(scan_result@) =~= entry_views(listed).push(lettered_entry@));
            assert(taken =~= lettered.take(i as int).push(lettered_entry@));
        }
        assert(lettered.take(lettered.len() as int) =~= lettered);
        self.scan_result = scan_result;
        text
    }

    /// Takes in one line of the operator and says what to do.
    pub fn handle_line(&self, line: &str) -> (effects: Vec<ShellEffect>)
        ensures
            effect_views(effects@) == reaction(parsed_line(self.entries(), line@)),
    {
        let mut effects: Vec<ShellEffect> = Vec::new();
        match self.parse_command(line) {
            Ok(UserInput::Nop) => {},
            Ok(UserInput::Quit) => {
                effects.push(ShellEffect::Send(StdinShellMessage::QuitRequested));
                effects.push(ShellEffect::Stop);
            },
            Ok(UserInput::AllowHWND(hwnds)) => {
                effects.push(ShellEffect::Send(StdinShellMessage::AllowHWND(hwnds)));
            },
            Ok(UserInput::List) => {
                effects.push(ShellEffect::Send(StdinShellMessage::ListRequested));
                effects.push(
                    ShellEffect::Print(
                        String::from_str("Requesting allowed HWNDs, press Enter to refresh..."),
                    ),
                );
            },
            Ok(UserInput::Scan) => {
                effects.push(ShellEffect::Scan);
            },
            Err(problem) => {
                let mut text = String::from_str("shell: ");
                text.append(problem.as_str());
                effects.push(ShellEffect::Print(text));
            },
        }
        assert(effect_views(effects@) =~= reaction(parsed_line(self.entries(), line@)));
        effects
    }

    /// Takes in one command of the supervisor and says what to do.
    pub fn handle_command(&self, command: StdinShellCommand) -> (effect: ShellEffect)
        ensures
            effect@ == match command@ {
                StdinShellCommandView::Quit => ShellEffectView::Stop,
                StdinShellCommandView::Output { message } => ShellEffectView::Print(message),
            },
    {
        match command {
            StdinShellCommand::Quit => ShellEffect::Stop,
            StdinShellCommand::Output { message } => ShellEffect::Print(message),
        }
    }

    /// The window that `alias` stands for.
    fn lookup(&self, alias: char) -> (hwnd: Option<WindowHandle>)
        ensures
            hwnd == alias_target(self.entries(), alias),
    {
        let ghost all = self.entries();
        let mut i: usize = 0;
        assert(all.skip(0) =~= all);
        while i < self.scan_result.len()
            invariant
                i <= self.scan_result@.len(),
                all == self.entries(),
                alias_target(all.skip(i as int), alias) == alias_target(all, alias),
            decreases self.scan_result@.len() - i,
        {
            assert(all.skip(i as int)[0] == self.scan_result@[i as int]@);
            assert(all.skip(i as int).drop_first() =~= all.skip(i + 1));
            match self.scan_result[i].alias {
                Some(letter) => {
                    if letter == alias {
                        return Some(self.scan_result[i].hwnd);
                    }
                },
                None => {},
            }
            i = i + 1;
        }
        None
    }

    /// The window that `chars[from..to]` names.
    fn resolve(&self, chars: &Vec<char>, from: usize, to: usize) -> (hwnd: Option<WindowHandle>)
        requires
            from <= to <= chars@.len(),
        ensures
            hwnd == named_window(self.entries(), chars@.subrange(from as int, to as int)),
    {
        if to - from == 1 {
            assert(chars@.subrange(from as int, to as int)[0] == chars@[from as int]);
            match self.lookup(chars[from]) {
                Some(hwnd) => {
                    return Some(hwnd);
                },
                None => {},
            }
        }
        read_handle(chars, from, to)
    }

    /// Reads one line of the operator.
    pub fn parse_command(&self, line: &str) -> (input: Result<UserInput, String>)
        ensures
            match (input, parsed_line(self.entries(), line@)) {
                (Ok(got), Ok(wanted)) => got@ == wanted,
                (Err(got), Err(wanted)) => got@ == wanted,
                _ => false,
            },
    {
        let chars = chars_of(line);
        let spans = split(&chars);
        let ghost args = words(line@);
        if spans.len() == 0 {
            return Ok(UserInput::Nop);
        }
        let (from, to) = spans[0];
        assert(args[0] == chars@.subrange(from as int, to as int));
        if is_word(&chars, from, to, "quit") {
            return Ok(UserInput::Quit);
        }
        if is_word(&chars, from, to, "list") {
            return Ok(UserInput::List);
        }
        if is_word(&chars, from, to, "scan") {
            return Ok(UserInput::Scan);
        }
        if starts_with(&chars, from, to, "allow") {
            if spans.len() == 1 {
                return Err(String::from_str("allow needs at least one HWND"));
            }
            let ghost rest = args.skip(1);
            let mut hwnds: Vec<WindowHandle> = Vec::new();
            let mut i: usize = 1;
            assert(rest.skip(0) =~= rest);
            assert(rest.take(0) =~= Seq::empty());
            assert(hwnds@ =~= named_windows(self.entries(), rest.take(0)));
            assert(parsed_line(self.entries(), line@) == match first_unknown(
                self.entries(),
                rest,
            ) {
                Some(arg) => Err::<UserInputView, Seq<char>>("unknown HWND "@ + arg + " in allow"@),
                None => Ok(UserInputView::AllowHWND(named_windows(self.entries(), rest))),
            });
            while i < spans.len()
                invariant
                    1 <= i <= spans@.len(),
                    parsed_line(self.entries(), line@) == match first_unknown(
                        self.entries(),
                        rest,
                    ) {
                        Some(arg) => Err::<UserInputView, Seq<char>>(
                            "unknown HWND "@ + arg + " in allow"@,
                        ),
                        None => Ok(UserInputView::AllowHWND(named_windows(self.entries(), rest))),
                    },
                    chars@ == line@,
                    args == words(line@),
                    rest == args.skip(1),
                    span_texts(chars@, spans@) == args,
                    forall|k: int|
                        0 <= k < spans@.len() ==> (#[trigger] spans@[k]).0 < spans@[k].1
                            <= chars@.len(),
                    first_unknown(self.entries(), rest.skip(i - 1)) == first_unknown(
                        self.entries(),
                        rest,
                    ),
                    hwnds@ == named_windows(self.entries(), rest.take(i - 1)),
                decreases spans@.len() - i,
            {
                let (arg_from, arg_to) = spans[i];
                let ghost arg = chars@.subrange(arg_from as int, arg_to as int);
                proof {
                    assert(args[i as int] == arg);
                    assert(rest.skip(i - 1)[0] == arg);
                    assert(rest.skip(i - 1).drop_first() =~= rest.skip(i as int));
                }
                match self.resolve(&chars, arg_from, arg_to) {
                    Some(hwnd) => {
                        proof {
                            assert(rest.take(i as int) =~= rest.take(i - 1).push(arg));
                            assert(named_windows(self.entries(), rest.take(i as int))
                                =~= named_windows(self.entries(), rest.take(i - 1)).push(hwnd));
                        }
                        hwnds.push(hwnd);
                    },
                    None => {
                        assert(first_unknown(self.entries(), rest.skip(i - 1)) == Some(arg));
                        let mut message = String::from_str("unknown HWND ");
                        message.append(line.substring_char(arg_from, arg_to));
                        message.append(" in allow");
                        return Err(message);
                    },
                }
                i = i + 1;
            }
            assert(rest.take(rest.len() as int) =~= rest);
            return Ok(UserInput::AllowHWND(hwnds));
        }
        let mut message = String::from_str("unknown command: ");
        message.append(line);
        Err(message)
    }
}

} // verus!
