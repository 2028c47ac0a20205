//! Chat session state: the message log, the input line with its cursor, the
//! run phase, and the transitions driven by key presses, distillation
//! outcomes and streamed model tokens. The surrounding program performs the
//! terminal drawing and the outside calls; every state change goes through
//! the functions here.

use vstd::prelude::*;
use vstd::string::StringExecFns;
use vstd::string::StrSliceExecFns;
use crate::chars::{str_to_chars, chars_to_string};
use crate::trim::{KeepClass, class_trim, trim_class};
use crate::distill::DistillResult;

verus! {

/// Who said a chat message.
#[derive(Clone, Copy, PartialEq, Eq, Structural)]
pub enum Role {
    User,
    Assistant,
    System,
}

/// Distillation statistics attached to an assistant message. The
/// compression figure is in permille of tokens saved.
pub struct DistillStats {
    pub chunks_retrieved: u64,
    pub after_dedup: u64,
    pub compression_permille: i64,
}

/// One entry of the conversation log.
pub struct ChatMessage {
    pub role: Role,
    pub content: String,
    pub stats: Option<DistillStats>,
}

/// What the session is doing.
#[derive(Clone, Copy, PartialEq, Eq, Structural)]
pub enum AppPhase {
    Idle,
    Distilling,
    Streaming,
}

/// Events sent through the streaming channel while the model answers.
pub enum StreamEvent {
    Token(String),
    Done,
    Error(String),
}

/// A key press, reduced to what the session logic needs.
pub enum InputEvent {
    Typed(char),
    Backspace,
    CursorLeft,
    CursorRight,
    CursorHome,
    CursorEnd,
    PageUp,
    PageDown,
    Enter,
    Quit,
}

/// What the caller must do after a key press.
pub enum UiAction {
    /// Nothing beyond redrawing.
    Nothing,
    /// Tear the terminal down and leave.
    Leave,
    /// Start a distillation run for this query.
    Ask(String),
}

/// The session state.
pub struct App {
    pub messages: Vec<ChatMessage>,
    pub phase: AppPhase,
    pub input: String,
    pub cursor_pos: usize,
    pub scroll_offset: u16,
    pub model_name: String,
    pub budget: Option<u64>,
    pub chunk_count: u64,
    pub tick_count: u64,
    pub ollama_ok: bool,
    pub should_quit: bool,
}

impl App {
    /// The cursor always sits on a character boundary of the input line.
    pub open spec fn wf(&self) -> bool {
        self.cursor_pos <= self.input@.len()
    }

    /// A fresh idle session.
    pub fn new(model_name: String, budget: Option<u64>) -> (r: App)
        ensures
            r.wf(),
            r.messages@.len() == 0,
            r.phase == AppPhase::Idle,
            r.input@.len() == 0,
            r.cursor_pos == 0,
            r.scroll_offset == 0,
            r.model_name == model_name,
            r.budget == budget,
            r.chunk_count == 0,
            r.tick_count == 0,
            !r.ollama_ok,
            !r.should_quit,
    {
        App {
            messages: Vec::new(),
            phase: AppPhase::Idle,
            input: String::new(),
            cursor_pos: 0,
            scroll_offset: 0,
            model_name,
            budget,
            chunk_count: 0,
            tick_count: 0,
            ollama_ok: false,
            should_quit: false,
        }
    }

    /// Appends a message and scrolls back to the bottom.
    pub fn push_message(&mut self, role: Role, content: String, stats: Option<DistillStats>)
        ensures
            final(self).messages@.len() == old(self).messages@.len() + 1,
            final(self).messages@.last().role == role,
            final(self).messages@.last().content == content,
            final(self).messages@.last().stats == stats,
            final(self).messages@ == old(self).messages@.push(final(self).messages@.last()),
            final(self).scroll_offset == 0,
            *final(self) == (App {
                messages: final(self).messages,
                scroll_offset: 0,
                ..*old(self)
            }),
    {
        self.messages.push(ChatMessage { role, content, stats });
        self.scroll_offset = 0;
    }

    /// Appends a streamed token to the newest message, if there is one.
    pub fn append_to_last(&mut self, token: &str)
        ensures
            old(self).messages@.len() == 0 ==> *final(self) == *old(self),
            old(self).messages@.len() > 0 ==> {
                let prev = old(self).messages@.last();
                &&& final(self).messages@.len() == old(self).messages@.len()
                &&& final(self).messages@.last().role == prev.role
                &&& final(self).messages@.last().content@ == prev.content@ + token@
                &&& final(self).messages@ == old(self).messages@.drop_last().push(
                    final(self).messages@.last(),
                )
                &&& *final(self) == (App { messages: final(self).messages, ..*old(self) })
            },
    {
        if self.messages.len() > 0 {
            let ghost pre = self.messages@;
            let mut msg = match self.messages.pop() {
                Some(m) => m,
                None => {
                    proof {
                        assert(false);
                    }
                    return ;
                },
            };
            msg.content.append(token);
            self.messages.push(msg);
            proof {
                assert(self.messages@ =~= pre.drop_last().push(self.messages@.last()));
            }
        }
    }

    /// Inserts a character at the cursor.
    pub fn insert_char(&mut self, c: char)
        requires
            old(self).wf(),
        ensures
            final(self).wf(),
            final(self).input@ == old(self).input@.take(old(self).cursor_pos as int).push(c)
                + old(self).input@.skip(old(self).cursor_pos as int),
            final(self).cursor_pos == old(self).cursor_pos + 1,
            *final(self) == (App {
                input: final(self).input,
                cursor_pos: final(self).cursor_pos,
                ..*old(self)
            }),
    {
        let mut chars = str_to_chars(self.input.as_str());
        let ghost pre = chars@;
        chars.insert(self.cursor_pos, c);
        proof {
            assert(chars@ =~= pre.take(old(self).cursor_pos as int).push(c) + pre.skip(
                old(self).cursor_pos as int,
            ));
        }
        let new_len = chars.len();
        proof {
            assert(old(self).cursor_pos < new_len);
        }
        self.input = chars_to_string(&chars);
        self.cursor_pos = self.cursor_pos + 1;
    }

    /// Removes the character before the cursor, if any.
    pub fn delete_char_before(&mut self)
        requires
            old(self).wf(),
        ensures
            final(self).wf(),
            old(self).cursor_pos == 0 ==> *final(self) == *old(self),
            old(self).cursor_pos > 0 ==> {
                &&& final(self).input@ == old(self).input@.take(old(self).cursor_pos - 1) + old(
                    self,
                ).input@.skip(old(self).cursor_pos as int)
                &&& final(self).cursor_pos == old(self).cursor_pos - 1
                &&& *final(self) == (App {
                    input: final(self).input,
                    cursor_pos: final(self).cursor_pos,
                    ..*old(self)
                })
            },
    {
        if self.cursor_pos > 0 {
            self.cursor_pos = self.cursor_pos - 1;
            let mut chars = str_to_chars(self.input.as_str());
            let ghost pre = chars@;
            chars.remove(self.cursor_pos);
            proof {
                assert(chars@ =~= pre.take(self.cursor_pos as int) + pre.skip(
                    self.cursor_pos + 1,
                ));
            }
            self.input = chars_to_string(&chars);
        }
    }

    pub fn move_cursor_left(&mut self)
        ensures
            final(self).cursor_pos == if old(self).cursor_pos > 0 {
                (old(self).cursor_pos - 1) as usize
            } else {
                0usize
            },
            *final(self) == (App { cursor_pos: final(self).cursor_pos, ..*old(self) }),
    {
        if self.cursor_pos > 0 {
            self.cursor_pos = self.cursor_pos - 1;
        }
    }

    pub fn move_cursor_right(&mut self)
        requires
            old(self).wf(),
        ensures
            final(self).wf(),
            final(self).cursor_pos == if old(self).cursor_pos < old(self).input@.len() {
                old(self).cursor_pos + 1
            } else {
                old(self).cursor_pos as int
            },
            *final(self) == (App { cursor_pos: final(self).cursor_pos, ..*old(self) }),
    {
        let len = self.input.as_str().unicode_len();
        if self.cursor_pos < len {
            self.cursor_pos = self.cursor_pos + 1;
        }
    }

    pub fn move_cursor_home(&mut self)
        ensures
            final(self).cursor_pos == 0,
            *final(self) == (App { cursor_pos: 0, ..*old(self) }),
    {
        self.cursor_pos = 0;
    }

    pub fn move_cursor_end(&mut self)
        ensures
            final(self).wf(),
            final(self).cursor_pos == old(self).input@.len(),
            *final(self) == (App { cursor_pos: final(self).cursor_pos, ..*old(self) }),
    {
        self.cursor_pos = self.input.as_str().unicode_len();
    }

    /// Takes the input line, leaving it empty with the cursor at home.
    pub fn take_input(&mut self) -> (r: String)
        ensures
            r == old(self).input,
            final(self).wf(),
            final(self).input@.len() == 0,
            final(self).cursor_pos == 0,
            *final(self) == (App { input: final(self).input, cursor_pos: 0, ..*old(self) }),
    {
        self.cursor_pos = 0;
        let out = self.input.clone();
        self.input = String::new();
        out
    }
}

/// The input line trimmed of surrounding whitespace, as a query.
pub open spec fn trimmed_query(s: Seq<char>) -> Seq<char> {
    class_trim(s, KeepClass::NonSpace)
}

/// Feeds one key press to the session and says what the caller must do:
/// quit keys quit in every phase; while idle, editing keys edit the input
/// line and enter submits the trimmed line as a query (blank lines are
/// discarded); while a run or a stream is underway only scrolling works.
pub fn handle_input_event(app: &mut App, ev: InputEvent) -> (action: UiAction)
    requires
        old(app).wf(),
    ensures
        final(app).wf(),
        ev is Quit ==> final(app).should_quit && action is Leave,
        !(ev is Quit) ==> final(app).should_quit == old(app).should_quit,
        action is Ask ==> old(app).phase == AppPhase::Idle && ev is Enter && final(app).phase
            == AppPhase::Distilling && action->Ask_0@ == trimmed_query(old(app).input@)
            && action->Ask_0@.len() > 0 && final(app).input@.len() == 0,
        old(app).phase == AppPhase::Idle && ev is Enter && trimmed_query(
            old(app).input@,
        ).len() > 0 ==> action is Ask,
        old(app).phase == AppPhase::Idle && ev is Enter && trimmed_query(
            old(app).input@,
        ).len() == 0 ==> action is Nothing && final(app).input@.len() == 0 && final(app).phase
            == AppPhase::Idle,
        !(old(app).phase == AppPhase::Idle) && !(ev is Quit) ==> final(app).phase == old(app).phase
            && final(app).input == old(app).input,
        !(ev is Enter) && !(ev is Quit) ==> final(app).messages@ == old(app).messages@
            && final(app).phase == old(app).phase,
        old(app).phase == AppPhase::Idle && ev is Typed ==> final(app).input@
            == old(app).input@.take(old(app).cursor_pos as int).push(ev->Typed_0)
            + old(app).input@.skip(old(app).cursor_pos as int),
        old(app).phase == AppPhase::Idle && ev is Backspace && old(app).cursor_pos > 0
            ==> final(app).input@ == old(app).input@.take(old(app).cursor_pos - 1)
            + old(app).input@.skip(old(app).cursor_pos as int),
{
    match ev {
        InputEvent::Quit => {
            app.should_quit = true;
            UiAction::Leave
        },
        _ => {
            match app.phase {
                AppPhase::Idle => {
                    match ev {
                        InputEvent::Enter => {
                            let raw = app.take_input();
                            let chars = str_to_chars(raw.as_str());
                            let trimmed = trim_class(&chars, KeepClass::NonSpace);
                            if trimmed.len() == 0 {
                                UiAction::Nothing
                            } else {
                                let query = chars_to_string(&trimmed);
                                let shown = query.clone();
                                app.push_message(Role::User, shown, None);
                                app.phase = AppPhase::Distilling;
                                UiAction::Ask(query)
                            }
                        },
                        InputEvent::Typed(c) => {
                            app.insert_char(c);
                            UiAction::Nothing
                        },
                        InputEvent::Backspace => {
                            app.delete_char_before();
                            UiAction::Nothing
                        },
                        InputEvent::CursorLeft => {
                            app.move_cursor_left();
                            UiAction::Nothing
                        },
                        InputEvent::CursorRight => {
                            app.move_cursor_right();
                            UiAction::Nothing
                        },
                        InputEvent::CursorHome => {
                            app.move_cursor_home();
                            UiAction::Nothing
                        },
                        InputEvent::CursorEnd => {
                            app.move_cursor_end();
                            UiAction::Nothing
                        },
                        InputEvent::PageUp => {
                            app.scroll_offset = if app.scroll_offset <= 0xfffa {
                                app.scroll_offset + 5
                            } else {
                                0xffff
                            };
                            UiAction::Nothing
                        },
                        InputEvent::PageDown => {
                            app.scroll_offset = if app.scroll_offset >= 5 {
                                app.scroll_offset - 5
                            } else {
                                0
                            };
                            UiAction::Nothing
                        },
                        InputEvent::Quit => UiAction::Nothing,
                    }
                },
                _ => {
                    match ev {
                        InputEvent::PageUp => {
                            app.scroll_offset = if app.scroll_offset <= 0xfffa {
                                app.scroll_offset + 5
                            } else {
                                0xffff
                            };
                        },
                        InputEvent::PageDown => {
                            app.scroll_offset = if app.scroll_offset >= 5 {
                                app.scroll_offset - 5
                            } else {
                                0
                            };
                        },
                        _ => {},
                    }
                    UiAction::Nothing
                },
            }
        },
    }
}

/// Feeds one streamed model event to the session: tokens append to the
/// newest message, the end of the stream and errors return the session to
/// idle, an error is also logged.
pub fn handle_stream_event(app: &mut App, ev: StreamEvent)
    requires
        old(app).wf(),
    ensures
        final(app).wf(),
        ev is Done ==> final(app).phase == AppPhase::Idle && final(app).messages@.len() == old(
            app,
        ).messages@.len(),
        ev is Error ==> final(app).phase == AppPhase::Idle && final(app).messages@.len() == old(
            app,
        ).messages@.len() + 1 && final(app).messages@.last().role == Role::System,
        ev is Token ==> final(app).phase == old(app).phase && (old(app).messages@.len() > 0
            ==> final(app).messages@.last().content@ == old(app).messages@.last().content@
            + ev->Token_0@),
{
    match ev {
        StreamEvent::Token(tok) => {
            app.append_to_last(tok.as_str());
        },
        StreamEvent::Done => {
            app.phase = AppPhase::Idle;
        },
        StreamEvent::Error(e) => {
            let mut msg = String::from_str("LLM error: ");
            msg.append(e.as_str());
            app.push_message(Role::System, msg, None);
            app.phase = AppPhase::Idle;
        },
    }
}

/// Feeds a finished distillation to the session. An empty context logs a
/// hint and returns to idle; otherwise an assistant message carrying the
/// run's statistics is opened, the session starts streaming, and the caller
/// must start the model stream.
pub fn handle_distill_result(app: &mut App, result: &DistillResult) -> (start: bool)
    requires
        old(app).wf(),
    ensures
        final(app).wf(),
        result.context@.len() == 0 ==> !start && final(app).phase == AppPhase::Idle
            && final(app).messages@.len() == old(app).messages@.len() + 1 && final(app).messages@.last().role
            == Role::System,
        result.context@.len() > 0 ==> start && final(app).phase == AppPhase::Streaming
            && final(app).messages@.len() == old(app).messages@.len() + 1 && final(app).messages@.last().role
            == Role::Assistant && final(app).messages@.last().content@.len() == 0
            && final(app).messages@.last().stats == Some(
            DistillStats {
                chunks_retrieved: result.chunks_retrieved,
                after_dedup: result.chunks_after_dedup,
                compression_permille: result.compression_permille,
            },
        ),
{
    if result.context.as_str().unicode_len() == 0 {
        app.push_message(
            Role::System,
            String::from_str("No relevant documents found. Add documents first with: ghost-lib add <path>"),
            None,
        );
        app.phase = AppPhase::Idle;
        false
    } else {
        let stats = DistillStats {
            chunks_retrieved: result.chunks_retrieved,
            after_dedup: result.chunks_after_dedup,
            compression_permille: result.compression_permille,
        };
        app.push_message(Role::Assistant, String::new(), Some(stats));
        app.phase = AppPhase::Streaming;
        true
    }
}

/// Logs a failed distillation and returns the session to idle.
pub fn handle_distill_error(app: &mut App, error: &str)
    requires
        old(app).wf(),
    ensures
        final(app).wf(),
        final(app).phase == AppPhase::Idle,
        final(app).messages@.len() == old(app).messages@.len() + 1,
        final(app).messages@.last().role == Role::System,
        final(app).messages@.last().content@ == "Distillation error: "@ + error@,
{
    let mut msg = String::from_str("Distillation error: ");
    msg.append(error);
    app.push_message(Role::System, msg, None);
    app.phase = AppPhase::Idle;
}

/// The animated ellipsis of the waiting indicator: the tick count picks
/// zero to three dots.
pub fn spinning_dots(tick: u64) -> (r: String)
    ensures
        r@ == Seq::new(((tick / 5) % 4) as nat, |i: int| '.'),
{
    let n = (tick / 5) % 4;
    let mut out = String::new();
    let mut i: u64 = 0;
    while i < n
        invariant
            i <= n,
            n < 4,
            out@ == Seq::new(i as nat, |q: int| '.'),
        decreases n - i,
    {
        crate::chars::push_char(&mut out, '.');
        proof {
            assert(out@ =~= Seq::new((i + 1) as nat, |q: int| '.'));
        }
        i += 1;
    }
    out
}

} // verus!
