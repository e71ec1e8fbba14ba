//! The debugger front end's keyboard-handler model: a stack of handlers
//! (base layer, input field, popup menu) with a uniform `handle_input`
//! verb, and the dispatch that turns a completed input into a control
//! message.  The rendering of these widgets is the terminal framework's
//! business; the decisions live here.

use vstd::prelude::*;

use crate::interface::VmInstruction;

verus! {

/// A keyboard event as the handlers see it.
#[derive(Debug, Clone, Copy, PartialEq, Eq, Structural)]
pub enum InputEvent {
    Character(char),
    Backspace,
    Enter,
    Escape,
    Tab,
    Other,
}

/// What a handler did with an event.
#[derive(Debug, PartialEq, Eq)]
pub enum InputDone {
    /// Input handled, but the handler stays on the stack.
    Keep,
    /// Input handled, and the handler is done: remove it.
    Discard,
    /// The UI can start shutting down.
    Quit,
    /// Push the given handler on top of the stack (keeping this one).
    Push(WrappedHandlers),
    /// Input is ready for this destination (and the handler is done).
    Input(InputDestination, String),
    /// Run the VM (keeping this handler).
    Run,
    /// Single-step the VM (keeping this handler).
    Step,
}

/// Where a completed input field's text goes.
#[derive(Debug, Clone, Copy, PartialEq, Eq, Structural)]
pub enum InputDestination {
    /// Text typed for the VM's `In` opcode.
    Input,
    /// Pause after this many instructions.
    PauseAfterCount,
    /// Pause at this address.
    PauseAfterAddress,
    /// Per-instruction delay in milliseconds.
    SetDelay,
    /// New program counter.
    ProgramCounter,
    /// Which register to set (asks for the value next).
    RegisterNumber,
    /// The value for this register number.
    RegisterValue(u8),
    /// A file whose lines pre-fill the input buffer.
    InputPrefill,
    /// A file to save the memory listing to.
    SaveMemory,
    /// A file to trace executed instructions to.
    TraceOperations,
    /// Stop tracing.
    TraceStop,
}

/// Which page the popup menu shows.
#[derive(Debug, Clone, Copy, PartialEq, Eq, Structural)]
pub enum MenuMode {
    /// The list of sub-menus.
    Main,
    /// Runtime speed and limited execution.
    RunModes,
    /// Registers and the program counter.
    VmState,
    /// Saving memory and tracing.
    FileOptions,
}

/// A text-input field with a fixed alphabet and length limit.
#[derive(Debug, PartialEq, Eq)]
pub struct InputField {
    pub buffer: String,
    pub printables: String,
    pub title: String,
    pub max_len: u16,
    pub destination: InputDestination,
    pub is_input: bool,
}

/// The popup menu.
#[derive(Debug, Clone, Copy, PartialEq, Eq, Structural)]
pub struct PopupMenu {
    pub menu_mode: MenuMode,
}

/// The always-present bottom handler: run, step, open the menu.
#[derive(Debug, Clone, Copy, PartialEq, Eq, Structural)]
pub struct BaseHandler {}

/// The handler stack's uniform element.
#[derive(Debug, PartialEq, Eq)]
pub enum WrappedHandlers {
    BaseHandler(BaseHandler),
    InputField(InputField),
    PopupMenu(PopupMenu),
}

/// Relies on String::pop: removes the last character, if any.
#[verifier::external_body]
fn pop_char(s: &mut String)
    ensures
        old(s)@.len() == 0 ==> final(s)@ == old(s)@,
        old(s)@.len() > 0 ==> final(s)@ == old(s)@.drop_last(),
{
    let _ = s.pop();
}

/// Whether the string holds the character.
fn contains_char(s: &String, c: char) -> (r: bool)
    ensures
        r == s@.contains(c),
{
    let text = s.as_str();
    let n = text.unicode_len();
    let mut i: usize = 0;
    while i < n
        invariant
            i <= n,
            n == text@.len(),
            text@ == s@,
            forall|j: int| 0 <= j < i ==> s@[j] != c,
        decreases n - i,
    {
        if text.get_char(i) == c {
            return true;
        }
        i = i + 1;
    }
    proof {
        assert(!s@.contains(c));
    }
    false
}

/// What one key does to an input field: the new field state and result
/// as a relation (the buffer strings keep this from being a function).
pub open spec fn spec_field_transition(
    pre: InputField,
    post: InputField,
    event: InputEvent,
    done: InputDone,
) -> bool {
    &&& post.printables == pre.printables
    &&& post.title == pre.title
    &&& post.max_len == pre.max_len
    &&& post.destination == pre.destination
    &&& post.is_input == pre.is_input
    &&& (event matches InputEvent::Character(c) ==> {
        &&& post.buffer@ == if pre.printables@.contains(c) {
            pre.buffer@.push(c)
        } else {
            pre.buffer@
        }
        &&& done == InputDone::Keep
    })
    &&& (event == InputEvent::Backspace ==> {
        &&& post.buffer@ == if pre.buffer@.len() > 0 {
            pre.buffer@.drop_last()
        } else {
            pre.buffer@
        }
        &&& done == InputDone::Keep
    })
    &&& (event == InputEvent::Enter ==> (done matches InputDone::Input(dest, text)
        && dest == pre.destination && text@ == if pre.is_input {
        pre.buffer@.push('\n')
    } else {
        pre.buffer@
    }))
    &&& (event == InputEvent::Escape ==> post == pre && done == (if pre.is_input {
        InputDone::Push(WrappedHandlers::PopupMenu(PopupMenu { menu_mode: MenuMode::Main }))
    } else {
        InputDone::Discard
    }))
    &&& ((event == InputEvent::Tab || event == InputEvent::Other) ==> post == pre && done
        == InputDone::Keep)
}

/// What one key does to the popup menu: page navigation by initial
/// letter, leaves opening their input fields, escape backing out, and
/// every other key leaving the menu untouched.
pub open spec fn spec_menu_transition(
    pre: PopupMenu,
    post: PopupMenu,
    event: InputEvent,
    done: InputDone,
) -> bool {
    &&& (pre.menu_mode == MenuMode::Main ==> {
        &&& event == InputEvent::Character('r') ==> post.menu_mode == MenuMode::RunModes && done
            == InputDone::Keep
        &&& event == InputEvent::Character('s') ==> post.menu_mode == MenuMode::VmState && done
            == InputDone::Keep
        &&& event == InputEvent::Character('f') ==> post.menu_mode == MenuMode::FileOptions
            && done == InputDone::Keep
        &&& event == InputEvent::Character('q') ==> post == pre && done == InputDone::Quit
        &&& event == InputEvent::Escape ==> post == pre && done == InputDone::Discard
        &&& (match event {
            InputEvent::Character(c) => c != 'r' && c != 's' && c != 'f' && c != 'q',
            InputEvent::Escape => false,
            _ => true,
        }) ==> post == pre && done == InputDone::Keep
    })
    &&& (pre.menu_mode == MenuMode::RunModes ==> {
        &&& event == InputEvent::Character('p') ==> post == pre && pushes_field(
            done,
            "Pause after # instructions"@,
            "0123456789"@,
            6,
            InputDestination::PauseAfterCount,
            false,
        )
        &&& event == InputEvent::Character('u') ==> post == pre && pushes_field(
            done,
            "Run until address #"@,
            "0123456789abcdefABCDEF"@,
            4,
            InputDestination::PauseAfterAddress,
            false,
        )
        &&& event == InputEvent::Character('d') ==> post == pre && pushes_field(
            done,
            "Set instruction delay (ms)"@,
            "0123456789"@,
            9,
            InputDestination::SetDelay,
            false,
        )
        &&& event == InputEvent::Escape ==> post.menu_mode == MenuMode::Main && done
            == InputDone::Keep
        &&& (match event {
            InputEvent::Character(c) => c != 'p' && c != 'u' && c != 'd',
            InputEvent::Escape => false,
            _ => true,
        }) ==> post == pre && done == InputDone::Keep
    })
    &&& (pre.menu_mode == MenuMode::VmState ==> {
        &&& event == InputEvent::Character('p') ==> post == pre && pushes_field(
            done,
            "Set program counter"@,
            "0123456789abcdefABCDEF"@,
            4,
            InputDestination::ProgramCounter,
            false,
        )
        &&& event == InputEvent::Character('r') ==> post == pre && pushes_field(
            done,
            "Select a register"@,
            "01234567"@,
            1,
            InputDestination::RegisterNumber,
            false,
        )
        &&& event == InputEvent::Character('i') ==> post == pre && pushes_field(
            done,
            "Path to input file"@,
            spec_file_path_printables(),
            80,
            InputDestination::InputPrefill,
            false,
        )
        &&& event == InputEvent::Escape ==> post.menu_mode == MenuMode::Main && done
            == InputDone::Keep
        &&& (match event {
            InputEvent::Character(c) => c != 'p' && c != 'r' && c != 'i',
            InputEvent::Escape => false,
            _ => true,
        }) ==> post == pre && done == InputDone::Keep
    })
    &&& (pre.menu_mode == MenuMode::FileOptions ==> {
        &&& event == InputEvent::Character('s') ==> post == pre && pushes_field(
            done,
            "Path to save memory state to"@,
            spec_file_path_printables(),
            80,
            InputDestination::SaveMemory,
            false,
        )
        &&& event == InputEvent::Character('t') ==> post == pre && pushes_field(
            done,
            "Path to save traced operations to"@,
            spec_file_path_printables(),
            80,
            InputDestination::TraceOperations,
            false,
        )
        &&& event == InputEvent::Character('h') ==> post == pre && pushes_field(
            done,
            "Stop trace"@,
            ""@,
            0,
            InputDestination::TraceStop,
            false,
        )
        &&& event == InputEvent::Escape ==> post.menu_mode == MenuMode::Main && done
            == InputDone::Keep
        &&& (match event {
            InputEvent::Character(c) => c != 's' && c != 't' && c != 'h',
            InputEvent::Escape => false,
            _ => true,
        }) ==> post == pre && done == InputDone::Keep
    })
}

/// What one key does on the bottom layer: space runs, '.' or tab steps,
/// escape opens the menu, everything else is kept.
pub open spec fn spec_base_done(event: InputEvent) -> InputDone {
    match event {
        InputEvent::Escape => InputDone::Push(
            WrappedHandlers::PopupMenu(PopupMenu { menu_mode: MenuMode::Main }),
        ),
        InputEvent::Character(c) => if c == ' ' {
            InputDone::Run
        } else if c == '.' {
            InputDone::Step
        } else {
            InputDone::Keep
        },
        InputEvent::Tab => InputDone::Step,
        _ => InputDone::Keep,
    }
}

impl InputField {
    /// A fresh field: empty buffer, the given alphabet and title, the
    /// length limit capped at eighty.
    pub fn new(
        title: &str,
        printables: &str,
        max_len: u16,
        destination: InputDestination,
        locked: bool,
    ) -> (f: InputField)
        ensures
            f.buffer@ == Seq::<char>::empty(),
            f.printables@ == printables@,
            f.title@ == title@,
            f.max_len == if max_len < 80 {
                max_len
            } else {
                80u16
            },
            f.destination == destination,
            f.is_input == locked,
    {
        InputField {
            buffer: String::new(),
            printables: String::from_str(printables),
            title: String::from_str(title),
            max_len: if max_len < 80 {
                max_len
            } else {
                80
            },
            destination,
            is_input: locked,
        }
    }

    /// Handle one key: printable characters append to the buffer,
    /// backspace removes, enter completes the input (with a newline first
    /// when the field feeds the VM), escape cancels — back to the menu
    /// for a VM-input field, discarding the field otherwise.
    pub fn handle_input(&mut self, event: InputEvent) -> (done: InputDone)
        ensures
            spec_field_transition(*old(self), *final(self), event, done),
    {
        match event {
            InputEvent::Character(c) => {
                if contains_char(&self.printables, c) {
                    crate::dump::push_char(&mut self.buffer, c);
                }
                InputDone::Keep
            },
            InputEvent::Backspace => {
                pop_char(&mut self.buffer);
                InputDone::Keep
            },
            InputEvent::Enter => {
                if self.is_input {
                    crate::dump::push_char(&mut self.buffer, '\n');
                }
                InputDone::Input(self.destination, self.buffer.clone())
            },
            InputEvent::Escape => {
                if !self.is_input {
                    InputDone::Discard
                } else {
                    InputDone::Push(
                        WrappedHandlers::PopupMenu(PopupMenu { menu_mode: MenuMode::Main }),
                    )
                }
            },
            _ => InputDone::Keep,
        }
    }
}

/// Whether a result pushes an input field with these properties.
pub open spec fn pushes_field(
    done: InputDone,
    title: Seq<char>,
    printables: Seq<char>,
    max_len: u16,
    destination: InputDestination,
    locked: bool,
) -> bool {
    &&& done matches InputDone::Push(h)
    &&& h matches WrappedHandlers::InputField(f)
    &&& f.buffer@ == Seq::<char>::empty()
    &&& f.title@ == title
    &&& f.printables@ == printables
    &&& f.max_len == max_len
    &&& f.destination == destination
    &&& f.is_input == locked
}

impl PopupMenu {
    /// The menu on its main page.
    pub fn new() -> (m: PopupMenu)
        ensures
            m.menu_mode == MenuMode::Main,
    {
        PopupMenu { menu_mode: MenuMode::Main }
    }

    /// Handle one key: page navigation is by the highlighted initial
    /// letter; each leaf opens the matching input field; escape backs
    /// out one level (closing the menu from the main page).
    pub fn handle_input(&mut self, event: InputEvent) -> (done: InputDone)
        ensures
            spec_menu_transition(*old(self), *final(self), event, done),
    {
        match self.menu_mode {
            MenuMode::Main => {
                match event {
                    InputEvent::Character('r') => {
                        self.menu_mode = MenuMode::RunModes;
                        InputDone::Keep
                    },
                    InputEvent::Character('s') => {
                        self.menu_mode = MenuMode::VmState;
                        InputDone::Keep
                    },
                    InputEvent::Character('f') => {
                        self.menu_mode = MenuMode::FileOptions;
                        InputDone::Keep
                    },
                    InputEvent::Character('q') => InputDone::Quit,
                    InputEvent::Escape => InputDone::Discard,
                    _ => InputDone::Keep,
                }
            },
            MenuMode::RunModes => {
                match event {
                    InputEvent::Character('p') => InputDone::Push(
                        WrappedHandlers::input_field(
                            "Pause after # instructions",
                            "0123456789",
                            6,
                            InputDestination::PauseAfterCount,
                            false,
                        ),
                    ),
                    InputEvent::Character('u') => InputDone::Push(
                        WrappedHandlers::input_field(
                            "Run until address #",
                            "0123456789abcdefABCDEF",
                            4,
                            InputDestination::PauseAfterAddress,
                            false,
                        ),
                    ),
                    InputEvent::Character('d') => InputDone::Push(
                        WrappedHandlers::input_field(
                            "Set instruction delay (ms)",
                            "0123456789",
                            9,
                            InputDestination::SetDelay,
                            false,
                        ),
                    ),
                    InputEvent::Escape => {
                        self.menu_mode = MenuMode::Main;
                        InputDone::Keep
                    },
                    _ => InputDone::Keep,
                }
            },
            MenuMode::VmState => {
                match event {
                    InputEvent::Character('p') => InputDone::Push(
                        WrappedHandlers::input_field(
                            "Set program counter",
                            "0123456789abcdefABCDEF",
                            4,
                            InputDestination::ProgramCounter,
                            false,
                        ),
                    ),
                    InputEvent::Character('r') => InputDone::Push(
                        WrappedHandlers::input_field(
                            "Select a register",
                            "01234567",
                            1,
                            InputDestination::RegisterNumber,
                            false,
                        ),
                    ),
                    InputEvent::Character('i') => InputDone::Push(
                        WrappedHandlers::input_field(
                            "Path to input file",
                            file_path_printables(),
                            128,
                            InputDestination::InputPrefill,
                            false,
                        ),
                    ),
                    InputEvent::Escape => {
                        self.menu_mode = MenuMode::Main;
                        InputDone::Keep
                    },
                    _ => InputDone::Keep,
                }
            },
            MenuMode::FileOptions => {
                match event {
                    InputEvent::Character('s') => InputDone::Push(
                        WrappedHandlers::input_field(
                            "Path to save memory state to",
                            file_path_printables(),
                            128,
                            InputDestination::SaveMemory,
                            false,
                        ),
                    ),
                    InputEvent::Character('t') => InputDone::Push(
                        WrappedHandlers::input_field(
                            "Path to save traced operations to",
                            file_path_printables(),
                            128,
                            InputDestination::TraceOperations,
                            false,
                        ),
                    ),
                    InputEvent::Character('h') => InputDone::Push(
                        WrappedHandlers::input_field(
                            "Stop trace",
                            "",
                            0,
                            InputDestination::TraceStop,
                            false,
                        ),
                    ),
                    InputEvent::Escape => {
                        self.menu_mode = MenuMode::Main;
                        InputDone::Keep
                    },
                    _ => InputDone::Keep,
                }
            },
        }
    }
}

/// The alphabet of file-path input fields.
pub open spec fn spec_file_path_printables() -> Seq<char> {
    "\\abcdefghijklmnopqrstuvwxyzABCDEFGHIJKLMNOPQRSTUVWXYZ0123456789_ \"'"@
}

/// The alphabet of file-path input fields.
pub fn file_path_printables() -> (s: &'static str)
    ensures
        s@ == spec_file_path_printables(),
{
    "\\abcdefghijklmnopqrstuvwxyzABCDEFGHIJKLMNOPQRSTUVWXYZ0123456789_ \"'"
}

impl BaseHandler {
    /// The bottom handler.
    pub fn new() -> (b: BaseHandler) {
        BaseHandler {  }
    }

    /// Handle one key on the bottom layer: space runs, '.' or tab steps,
    /// escape opens the menu.
    pub fn handle_input(&mut self, event: InputEvent) -> (done: InputDone)
        ensures
            done == spec_base_done(event),
    {
        match event {
            InputEvent::Escape => InputDone::Push(
                WrappedHandlers::PopupMenu(PopupMenu { menu_mode: MenuMode::Main }),
            ),
            InputEvent::Character(' ') => InputDone::Run,
            InputEvent::Character('.') => InputDone::Step,
            InputEvent::Tab => InputDone::Step,
            _ => InputDone::Keep,
        }
    }
}

impl WrappedHandlers {
    /// Dispatch one key to whichever handler this is: the handler keeps
    /// its kind and behaves exactly as its own `handle_input` says.
    pub fn handle_input(&mut self, event: InputEvent) -> (done: InputDone)
        ensures
            (*old(self)) matches WrappedHandlers::BaseHandler(_) ==> *final(self) == *old(self)
                && done == spec_base_done(event),
            (*old(self)) matches WrappedHandlers::InputField(f) ==> ((*final(self)) matches
                WrappedHandlers::InputField(f2) && spec_field_transition(f, f2, event, done)),
            (*old(self)) matches WrappedHandlers::PopupMenu(m) ==> ((*final(self)) matches
                WrappedHandlers::PopupMenu(m2) && spec_menu_transition(m, m2, event, done)),
    {
        match self {
            WrappedHandlers::BaseHandler(base_handler) => base_handler.handle_input(event),
            WrappedHandlers::InputField(input_field) => input_field.handle_input(event),
            WrappedHandlers::PopupMenu(popup_menu) => popup_menu.handle_input(event),
        }
    }

    /// Wrap a fresh input field.
    pub fn input_field(
        title: &str,
        printables: &str,
        max_len: u16,
        destination: InputDestination,
        locked: bool,
    ) -> (h: WrappedHandlers)
        ensures
            h matches WrappedHandlers::InputField(f) && f.buffer@ == Seq::<char>::empty()
                && f.title@ == title@ && f.printables@ == printables@ && f.max_len == (
            if max_len < 80 {
                max_len
            } else {
                80u16
            }) && f.destination == destination && f.is_input == locked,
    {
        WrappedHandlers::InputField(
            InputField::new(title, printables, max_len, destination, locked),
        )
    }
}

/// Whether a byte is an ASCII decimal digit.
pub open spec fn is_dec_digit(b: u8) -> bool {
    0x30 <= b <= 0x39
}

/// The number the digit bytes spell in the given base (hex digits allow
/// both cases), unbounded.
pub open spec fn spec_digits_value(bytes: Seq<u8>, base: int) -> int
    decreases bytes.len(),
{
    if bytes.len() == 0 {
        0
    } else {
        spec_digits_value(bytes.drop_last(), base) * base + crate::patch::spec_hex_byte_val(
            bytes.last(),
        )
    }
}

/// A digit string's value never goes down as digits are appended.
proof fn lemma_digits_value_grows(bytes: Seq<u8>, base: int)
    requires
        base >= 2,
    ensures
        spec_digits_value(bytes, base) >= 0,
        bytes.len() > 0 ==> spec_digits_value(bytes, base) >= spec_digits_value(
            bytes.drop_last(),
            base,
        ),
    decreases bytes.len(),
{
    if bytes.len() > 0 {
        lemma_digits_value_grows(bytes.drop_last(), base);
        let prefix = spec_digits_value(bytes.drop_last(), base);
        assert(prefix * base >= prefix) by (nonlinear_arith)
            requires
                prefix >= 0,
                base >= 2,
        ;
    }
}

/// Values of prefixes never exceed the whole string's value.
proof fn lemma_digits_value_prefix(bytes: Seq<u8>, base: int, i: int)
    requires
        base >= 2,
        0 <= i <= bytes.len(),
    ensures
        spec_digits_value(bytes.take(i), base) <= spec_digits_value(bytes, base),
    decreases bytes.len() - i,
{
    if i < bytes.len() {
        lemma_digits_value_prefix(bytes, base, i + 1);
        lemma_digits_value_grows(bytes.take(i + 1), base);
        assert(bytes.take(i + 1).drop_last() =~= bytes.take(i));
    } else {
        assert(bytes.take(i) =~= bytes);
    }
}

/// A hex string parsed as a 16-bit word: `Some` exactly when it is
/// nonempty, all hex digits, and its value fits.
pub open spec fn spec_parse_hex_u16(bytes: Seq<u8>) -> Option<u16> {
    if bytes.len() == 0 || !crate::patch::spec_all_hex(bytes, 0, bytes.len() as int)
        || spec_digits_value(bytes, 16) > 0xFFFF {
        None
    } else {
        Some(spec_digits_value(bytes, 16) as u16)
    }
}

/// A decimal string parsed as a 32-bit count: `Some` exactly when it is
/// nonempty, all decimal digits, and its value fits.
pub open spec fn spec_parse_dec_u32(bytes: Seq<u8>) -> Option<u32> {
    if bytes.len() == 0 || !(forall|i: int| 0 <= i < bytes.len() ==> is_dec_digit(
        #[trigger] bytes[i],
    )) || spec_digits_value(bytes, 10) > 0xFFFFFFFF {
        None
    } else {
        Some(spec_digits_value(bytes, 10) as u32)
    }
}

/// Parse a hex string into a 16-bit word (see `spec_parse_hex_u16`).
pub fn parse_hex_u16(text: &str) -> (r: Option<u16>)
    ensures
        r == spec_parse_hex_u16(vstd::utf8::encode_utf8(text@)),
{
    let bytes = text.as_bytes();
    proof {
        assert(bytes@ == vstd::utf8::encode_utf8(text@));
    }
    if bytes.len() == 0 {
        return None;
    }
    let mut acc: u32 = 0;
    let mut i: usize = 0;
    while i < bytes.len()
        invariant
            i <= bytes@.len(),
            bytes@.len() > 0,
            bytes@ == vstd::utf8::encode_utf8(text@),
            crate::patch::spec_all_hex(bytes@, 0, i as int),
            acc == spec_digits_value(bytes@.take(i as int), 16),
            acc <= 0xFFFF,
        decreases bytes@.len() - i,
    {
        let b = bytes[i];
        if !((0x30 <= b && b <= 0x39) || (0x41 <= b && b <= 0x46) || (0x61 <= b && b <= 0x66)) {
            assert(!crate::patch::spec_hex_byte(bytes@[i as int]));
            return None;
        }
        let v = hex_byte_value(b);
        acc = acc * 16 + (v as u32);
        proof {
            assert(bytes@.take(i + 1).drop_last() =~= bytes@.take(i as int));
            assert(bytes@.take(i + 1).last() == bytes@[i as int]);
        }
        if acc > 0xFFFF {
            proof {
                lemma_digits_value_prefix(bytes@, 16, i + 1);
            }
            return None;
        }
        i = i + 1;
    }
    proof {
        assert(bytes@.take(bytes@.len() as int) =~= bytes@);
    }
    Some(acc as u16)
}

/// Parse a decimal string into a 32-bit count (see `spec_parse_dec_u32`).
pub fn parse_dec_u32(text: &str) -> (r: Option<u32>)
    ensures
        r == spec_parse_dec_u32(vstd::utf8::encode_utf8(text@)),
{
    let bytes = text.as_bytes();
    proof {
        assert(bytes@ == vstd::utf8::encode_utf8(text@));
    }
    if bytes.len() == 0 {
        return None;
    }
    let mut acc: u64 = 0;
    let mut i: usize = 0;
    while i < bytes.len()
        invariant
            i <= bytes@.len(),
            bytes@.len() > 0,
            bytes@ == vstd::utf8::encode_utf8(text@),
            forall|j: int| 0 <= j < i ==> is_dec_digit(#[trigger] bytes@[j]),
            acc == spec_digits_value(bytes@.take(i as int), 10),
            acc <= 0xFFFFFFFF,
        decreases bytes@.len() - i,
    {
        let b = bytes[i];
        if !(0x30 <= b && b <= 0x39) {
            return None;
        }
        acc = acc * 10 + ((b - 0x30) as u64);
        proof {
            assert(bytes@.take(i + 1).drop_last() =~= bytes@.take(i as int));
            assert(bytes@.take(i + 1).last() == bytes@[i as int]);
            assert(crate::patch::spec_hex_byte_val(bytes@[i as int]) == (b - 0x30) as u8);
        }
        if acc > 0xFFFFFFFF {
            proof {
                lemma_digits_value_prefix(bytes@, 10, i + 1);
            }
            return None;
        }
        i = i + 1;
    }
    proof {
        assert(bytes@.take(bytes@.len() as int) =~= bytes@);
    }
    Some(acc as u32)
}

/// The hex digit's value (callers check the byte first).
fn hex_byte_value(b: u8) -> (v: u8)
    ensures
        v == crate::patch::spec_hex_byte_val(b),
        v < 16,
{
    if 0x30 <= b && b <= 0x39 {
        b - 0x30
    } else if 0x41 <= b && b <= 0x46 {
        b - 0x41 + 10
    } else if 0x61 <= b && b <= 0x66 {
        b - 0x61 + 10
    } else {
        0
    }
}

/// What the front end does with one completed input.
#[derive(Debug, PartialEq, Eq)]
pub enum InputResolution {
    /// Send this text to the VM's input channel.
    SendInput(String),
    /// Send this control message.
    Message(VmInstruction),
    /// Open the register-value field for this register.
    PushRegisterField(u8),
    /// Read this file and pre-fill the input buffer with its lines.
    LoadInputFile(String),
    /// The text does not parse for this destination; do nothing.
    Invalid,
}

/// Turn a completed input field into the action it stands for: numbers
/// are parsed in the field's base, and text destinations pass the text
/// through.
pub fn resolve_input(destination: InputDestination, value: String) -> (r: InputResolution)
    ensures
        destination == InputDestination::Input ==> (r matches InputResolution::SendInput(text)
            && text@ == value@),
        destination == InputDestination::ProgramCounter ==> r == (match spec_parse_hex_u16(
            vstd::utf8::encode_utf8(value@),
        ) {
            Some(v) => InputResolution::Message(VmInstruction::SetProgramCounter(v)),
            None => InputResolution::Invalid,
        }),
        destination == InputDestination::PauseAfterCount ==> r == (match spec_parse_dec_u32(
            vstd::utf8::encode_utf8(value@),
        ) {
            Some(v) => InputResolution::Message(VmInstruction::RunForSteps(v as usize)),
            None => InputResolution::Invalid,
        }),
        destination == InputDestination::PauseAfterAddress ==> r == (match spec_parse_hex_u16(
            vstd::utf8::encode_utf8(value@),
        ) {
            Some(v) => InputResolution::Message(VmInstruction::RunUntilAddress(v)),
            None => InputResolution::Invalid,
        }),
        destination == InputDestination::SetDelay ==> r == (match spec_parse_dec_u32(
            vstd::utf8::encode_utf8(value@),
        ) {
            Some(v) => InputResolution::Message(VmInstruction::SetCommandDelay(v as usize, true)),
            None => InputResolution::Invalid,
        }),
        destination == InputDestination::RegisterNumber ==> r == (match spec_parse_dec_u32(
            vstd::utf8::encode_utf8(value@),
        ) {
            Some(v) => if v <= 255 {
                InputResolution::PushRegisterField(v as u8)
            } else {
                InputResolution::Invalid
            },
            None => InputResolution::Invalid,
        }),
        destination matches InputDestination::RegisterValue(reg) ==> r == (match
            spec_parse_hex_u16(vstd::utf8::encode_utf8(value@)) {
            Some(v) => InputResolution::Message(VmInstruction::SetRegister(reg, v)),
            None => InputResolution::Invalid,
        }),
        destination == InputDestination::InputPrefill ==> (r matches
            InputResolution::LoadInputFile(text) && text@ == value@),
        destination == InputDestination::SaveMemory ==> (r matches InputResolution::Message(m)
            && (m matches VmInstruction::SaveMemory(path) && path@ == value@)),
        destination == InputDestination::TraceOperations ==> (r matches
            InputResolution::Message(m) && (m matches VmInstruction::TraceOperations(path)
            && path@ == value@)),
        destination == InputDestination::TraceStop ==> r == InputResolution::Message(
            VmInstruction::TraceStop,
        ),
{
    match destination {
        InputDestination::Input => InputResolution::SendInput(value),
        InputDestination::ProgramCounter => match parse_hex_u16(value.as_str()) {
            Some(v) => InputResolution::Message(VmInstruction::SetProgramCounter(v)),
            None => InputResolution::Invalid,
        },
        InputDestination::PauseAfterCount => match parse_dec_u32(value.as_str()) {
            Some(v) => InputResolution::Message(VmInstruction::RunForSteps(v as usize)),
            None => InputResolution::Invalid,
        },
        InputDestination::PauseAfterAddress => match parse_hex_u16(value.as_str()) {
            Some(v) => InputResolution::Message(VmInstruction::RunUntilAddress(v)),
            None => InputResolution::Invalid,
        },
        InputDestination::SetDelay => match parse_dec_u32(value.as_str()) {
            Some(v) => InputResolution::Message(VmInstruction::SetCommandDelay(v as usize, true)),
            None => InputResolution::Invalid,
        },
        InputDestination::RegisterNumber => match parse_dec_u32(value.as_str()) {
            Some(v) => if v <= 255 {
                InputResolution::PushRegisterField(v as u8)
            } else {
                InputResolution::Invalid
            },
            None => InputResolution::Invalid,
        },
        InputDestination::RegisterValue(reg) => match parse_hex_u16(value.as_str()) {
            Some(v) => InputResolution::Message(VmInstruction::SetRegister(reg, v)),
            None => InputResolution::Invalid,
        },
        InputDestination::InputPrefill => InputResolution::LoadInputFile(value),
        InputDestination::SaveMemory => InputResolution::Message(VmInstruction::SaveMemory(value)),
        InputDestination::TraceOperations => InputResolution::Message(
            VmInstruction::TraceOperations(value),
        ),
        InputDestination::TraceStop => InputResolution::Message(VmInstruction::TraceStop),
    }
}

} // verus!
