//! The line that is being edited: its text, the cursor, the history of
//! lines and the names offered for completion.
//!
//! What a key does to the line is decided here; reading keys and drawing
//! the line is left to the program around it.

use crate::interpreter::env::{name_bytes, Env, MemberView};
use crate::scanner::{Token, TokenKind};
use crate::text::{can_slice, chars_of, is_prefix, lex_lt, slice};
use crate::util::{get_ident_at_end, get_ident_range, spec_ident_range};
use vstd::prelude::*;
use vstd::string::StrSliceExecFns;
use vstd::string::StringExecFns;
use vstd::string::StringSliceAdditionalSpecFns;

verus! {

/// The names offered for the name under the cursor, and the one that is
/// picked.
#[derive(Debug)]
pub struct Completion {
    pub index: usize,
    pub completions: Vec<String>,
}

/// The state of the editor.
#[derive(Debug)]
pub struct App {
    /// The tokens of the line as it was when it was last scanned.
    pub tokens: Vec<Token>,
    pub input: String,
    /// Position of the cursor in the line, counted in bytes.
    pub cursor_position: usize,
    pub message: String,
    pub history: Vec<String>,
    pub history_index: usize,
    pub completion: Option<Completion>,
}

/// The number of bytes of a text.
pub open spec fn byte_len(text: Seq<char>) -> nat {
    name_bytes(text).len()
}

/// The number of bytes of `s`.
fn len_of(s: &str) -> (r: usize)
    ensures
        r == byte_len(s@),
{
    s.as_bytes().len()
}

/// The part `from..to` of a text with the bytes `bytes` can be replaced: it
/// lies inside the text, and both of its ends fall between characters.
pub open spec fn can_splice(bytes: Seq<u8>, from: int, to: int) -> bool {
    can_slice(bytes, from, to)
}

/// `text` with its part `from..to` replaced by `inserted`; `text` itself
/// where that part cannot be replaced.
pub open spec fn spliced(text: Seq<char>, from: int, to: int, inserted: Seq<char>) -> Seq<char> {
    let bytes = name_bytes(text);
    if can_splice(bytes, from, to) {
        chars_of(bytes, 0, from) + inserted + chars_of(bytes, to, bytes.len() as int)
    } else {
        text
    }
}

/// `text` with its part `from..to` replaced by `inserted`; `None` where that
/// part cannot be replaced.
fn splice(text: &str, from: usize, to: usize, inserted: &str) -> (r: Option<String>)
    ensures
        r is Some <==> can_splice(name_bytes(text@), from as int, to as int),
        r matches Some(s) ==> s@ == spliced(text@, from as int, to as int, inserted@),
{
    let len = len_of(text);
    proof {
        vstd::utf8::encode_utf8_valid_utf8(text@);
        vstd::utf8::is_char_boundary_start_end_of_seq(name_bytes(text@));
    }
    if from > to {
        return None;
    }
    let head = match slice(text, 0, from) {
        Some(head) => head,
        None => {
            return None;
        },
    };
    let tail = match slice(text, to, len) {
        Some(tail) => tail,
        None => {
            return None;
        },
    };
    let mut out = String::from_str(head);
    out.append(inserted);
    out.append(tail);
    Some(out)
}

/// The kinds of tokens that are shown in colours of their own.
#[derive(Debug, Clone, Copy, PartialEq, Eq, Structural)]
pub enum Highlight {
    Operator,
    Number,
    /// A name that is called: a parenthesis follows it.
    Function,
    /// Any other name.
    Variable,
    Parenthesis,
    Plain,
}

/// The colour class of the token at place `i` of `tokens`.
pub open spec fn spec_highlight(tokens: Seq<Token>, i: int) -> Highlight {
    match tokens[i].kind {
        TokenKind::Plus | TokenKind::Slash | TokenKind::Minus | TokenKind::Star | TokenKind::Exp => {
            Highlight::Operator
        },
        TokenKind::Number => Highlight::Number,
        TokenKind::Indentifier => if i + 1 < tokens.len() && tokens[i + 1].kind
            == TokenKind::LParen {
            Highlight::Function
        } else {
            Highlight::Variable
        },
        TokenKind::LParen | TokenKind::RParen => Highlight::Parenthesis,
        _ => Highlight::Plain,
    }
}

/// The colour class of the token at place `i` of `tokens`.
pub fn highlight(tokens: &[Token], i: usize) -> (r: Highlight)
    requires
        i < tokens@.len(),
    ensures
        r == spec_highlight(tokens@, i as int),
{
    match tokens[i].kind {
        TokenKind::Plus | TokenKind::Slash | TokenKind::Minus | TokenKind::Star | TokenKind::Exp => {
            Highlight::Operator
        },
        TokenKind::Number => Highlight::Number,
        TokenKind::Indentifier => {
            if i + 1 < tokens.len() && tokens[i + 1].kind == TokenKind::LParen {
                Highlight::Function
            } else {
                Highlight::Variable
            }
        },
        TokenKind::LParen | TokenKind::RParen => Highlight::Parenthesis,
        _ => Highlight::Plain,
    }
}

/// The keys that mean something to the editor.
#[derive(Debug, PartialEq, Eq)]
pub enum Key {
    Enter,
    Tab,
    Down,
    Up,
    Left,
    Right,
    Backspace,
    Esc,
    /// A key that puts a character into the line, with that character as
    /// text.
    Char(String),
    /// Any other key.
    Other,
}

/// What the program is to do after a key.
#[derive(Debug, Clone, Copy, PartialEq, Eq, Structural)]
pub enum KeyAction {
    /// Go on reading keys.
    Continue,
    /// Evaluate the line, and call [`App::accept`] if that succeeds.
    Evaluate,
    /// Leave.
    Quit,
}

/// `names` are the names of `env` that begin with `prefix`, each once, in
/// the order of names.
pub open spec fn names_with_prefix(
    env: Map<Seq<char>, MemberView>,
    prefix: Seq<u8>,
    names: Seq<Seq<char>>,
) -> bool {
    &&& forall|i: int|
        0 <= i < names.len() ==> env.contains_key(#[trigger] names[i]) && is_prefix(
            prefix,
            name_bytes(names[i]),
        )
    &&& forall|i: int, j: int|
        0 <= i < j < names.len() ==> lex_lt(
            #[trigger] name_bytes(names[i]),
            #[trigger] name_bytes(names[j]),
        )
    &&& forall|name: Seq<char>|
        env.contains_key(name) && is_prefix(prefix, name_bytes(name)) ==> exists|i: int|
            0 <= i < names.len() && #[trigger] names[i] == name
}

/// The names of a completion as sequences of characters.
pub open spec fn offered(completion: Completion) -> Seq<Seq<char>> {
    crate::interpreter::ast::names_view(completion.completions@)
}

/// The bytes of the name that ends at the byte `cursor` of `text`: the name
/// that a completion is looked up for. It begins with the leftmost letter
/// of the longest run of letters and digits that ends at the cursor. `None`
/// where no name ends there, or `cursor` is no place between two characters
/// of `text`.
pub open spec fn name_before(text: Seq<char>, cursor: int) -> Option<Seq<u8>> {
    match spec_ident_range(name_bytes(text), cursor) {
        Some((start, end)) => Some(name_bytes(text).subrange(start, end)),
        None => None,
    }
}

impl App {
    /// An editor with an empty line and no history.
    pub fn new() -> (r: Self)
        ensures
            r.tokens@.len() == 0,
            r.input@.len() == 0,
            r.cursor_position == 0,
            r.message@.len() == 0,
            r.history@.len() == 0,
            r.history_index == 0,
            r.completion is None,
    {
        App {
            input: String::new(),
            cursor_position: 0,
            tokens: Vec::new(),
            message: String::new(),
            history: Vec::new(),
            history_index: 0,
            completion: None,
        }
    }

    /// Tokens and message are the same in `self` and `other`; no key
    /// changes them.
    pub open spec fn same_display(&self, other: &Self) -> bool {
        self.tokens == other.tokens && self.message == other.message
    }

    /// Everything but the cursor is the same in `self` and `other`.
    pub open spec fn same_but_cursor(&self, other: &Self) -> bool {
        &&& self.same_display(other)
        &&& self.input == other.input
        &&& self.history == other.history
        &&& self.history_index == other.history_index
        &&& self.completion == other.completion
    }

    /// The place in the line that is nearest to `pos`.
    pub open spec fn clamped(&self, pos: int) -> int {
        if pos > byte_len(self.input@) {
            byte_len(self.input@) as int
        } else {
            pos
        }
    }

    /// `post` is `self` with the cursor one byte to the left, if there is
    /// room.
    pub open spec fn cursor_left(&self, post: &Self) -> bool {
        &&& post.same_but_cursor(self)
        &&& post.cursor_position == self.clamped(
            if self.cursor_position == 0 {
                0
            } else {
                self.cursor_position - 1
            },
        )
    }

    /// `post` is `self` with the cursor one byte to the right, if there is
    /// room.
    pub open spec fn cursor_right(&self, post: &Self) -> bool {
        &&& post.same_but_cursor(self)
        &&& post.cursor_position == self.clamped(self.cursor_position + 1)
    }

    /// `post` is `self` one line forward in the history. Behind the last
    /// line of the history stands an empty line; there is no line behind
    /// that one.
    pub open spec fn history_forward(&self, post: &Self) -> bool {
        &&& post.same_display(self)
        &&& post.history == self.history
        &&& post.completion == self.completion
        &&& if self.history_index < self.history@.len() {
            &&& post.history_index == self.history_index + 1
            &&& post.input@ == if post.history_index < self.history@.len() {
                self.history@[post.history_index as int]@
            } else {
                Seq::<char>::empty()
            }
            &&& post.cursor_position == byte_len(post.input@)
        } else {
            *post == *self
        }
    }

    /// `post` is `self` one line back in the history, if there is a line
    /// before.
    pub open spec fn history_back(&self, post: &Self) -> bool {
        &&& post.same_display(self)
        &&& post.history == self.history
        &&& post.completion == self.completion
        &&& if 0 < self.history_index <= self.history@.len() {
            &&& post.history_index == self.history_index - 1
            &&& post.input@ == self.history@[post.history_index as int]@
            &&& post.cursor_position == byte_len(post.input@)
        } else {
            *post == *self
        }
    }

    /// `post` is `self` with `text` put into the line at the cursor, and the
    /// cursor one byte to the right. Nothing is changed where the cursor
    /// stands inside a character or behind the line.
    pub open spec fn char_entered(&self, post: &Self, text: Seq<char>) -> bool {
        &&& post.same_display(self)
        &&& post.history == self.history
        &&& post.history_index == self.history_index
        &&& post.completion == self.completion
        &&& post.input@ == spliced(
            self.input@,
            self.cursor_position as int,
            self.cursor_position as int,
            text,
        )
        &&& post.cursor_position == if can_splice(
            name_bytes(self.input@),
            self.cursor_position as int,
            self.cursor_position as int,
        ) {
            post.clamped(self.cursor_position + 1)
        } else {
            self.cursor_position as int
        }
    }

    /// The line without its character number `cursor`, counted from one.
    /// The cursor is a number of bytes; the character is found by counting
    /// characters.
    pub open spec fn without_char(text: Seq<char>, cursor: int) -> Seq<char> {
        let before = if cursor - 1 < text.len() {
            cursor - 1
        } else {
            text.len() as int
        };
        let after = if cursor < text.len() {
            cursor
        } else {
            text.len() as int
        };
        text.subrange(0, before) + text.subrange(after, text.len() as int)
    }

    /// `post` is `self` without the character before the cursor, and with
    /// the cursor one byte to the left. Nothing is changed where the cursor
    /// is at the beginning.
    pub open spec fn char_deleted(&self, post: &Self) -> bool {
        &&& post.same_display(self)
        &&& post.history == self.history
        &&& post.history_index == self.history_index
        &&& post.completion == self.completion
        &&& if self.cursor_position != 0 {
            &&& post.input@ == Self::without_char(self.input@, self.cursor_position as int)
            &&& post.cursor_position == post.clamped(self.cursor_position - 1)
        } else {
            *post == *self
        }
    }

    /// `post` is `self` with the completion for the name before the cursor:
    /// the names of `env` that begin with that name, and the first of them
    /// picked. There is no completion where no name stands before the
    /// cursor or no name of `env` begins with it.
    pub open spec fn completions_updated(
        &self,
        post: &Self,
        env: Map<Seq<char>, MemberView>,
    ) -> bool {
        &&& post.same_but_completion(self)
        &&& match name_before(self.input@, self.cursor_position as int) {
            None => post.completion is None,
            Some(prefix) => match post.completion {
                None => forall|name: Seq<char>|
                    env.contains_key(name) ==> !is_prefix(prefix, #[trigger] name_bytes(name)),
                Some(completion) => {
                    &&& completion.index == 0
                    &&& completion.completions@.len() > 0
                    &&& names_with_prefix(env, prefix, offered(completion))
                },
            },
        }
    }

    /// Everything but the completion is the same in `self` and `other`.
    pub open spec fn same_but_completion(&self, other: &Self) -> bool {
        &&& self.same_display(other)
        &&& self.input == other.input
        &&& self.cursor_position == other.cursor_position
        &&& self.history == other.history
        &&& self.history_index == other.history_index
    }

    /// `post` is `self` with the name before the cursor replaced by the
    /// name that is picked in the completion, and the cursor behind it.
    /// Nothing is changed where there is no completion, nothing is picked,
    /// or no name stands before the cursor.
    pub open spec fn completion_applied(&self, post: &Self) -> bool {
        &&& post.same_display(self)
        &&& post.history == self.history
        &&& post.history_index == self.history_index
        &&& post.completion == self.completion
        &&& match (self.completion, spec_ident_range(
            name_bytes(self.input@),
            self.cursor_position as int,
        )) {
            (Some(completion), Some((start, end))) if completion.index
                < completion.completions@.len() => {
                let picked = completion.completions@[completion.index as int]@;
                &&& post.input@ == spliced(self.input@, start, end, picked)
                &&& post.cursor_position == if start + byte_len(picked) <= usize::MAX {
                    start + byte_len(picked)
                } else {
                    usize::MAX as int
                }
            },
            _ => *post == *self,
        }
    }

    /// `post` is `self` with the next name picked in the completion, if
    /// there is one.
    pub open spec fn completion_down(&self, post: &Self) -> bool {
        &&& post.same_but_completion(self)
        &&& match self.completion {
            None => post.completion is None,
            Some(completion) => post.completion matches Some(after) && after.completions
                == completion.completions && after.index == if completion.index + 1
                < completion.completions@.len() {
                completion.index + 1
            } else if completion.completions@.len() > 0 {
                completion.completions@.len() - 1
            } else {
                0
            },
        }
    }

    /// `post` is `self` with the name before picked in the completion, if
    /// there is one.
    pub open spec fn completion_up(&self, post: &Self) -> bool {
        &&& post.same_but_completion(self)
        &&& match self.completion {
            None => post.completion is None,
            Some(completion) => post.completion matches Some(after) && after.completions
                == completion.completions && after.index == if completion.index > 0 {
                completion.index - 1
            } else {
                0
            },
        }
    }

    /// `post` is `self` after a line was evaluated: the line has gone to
    /// the end of the history, the editor stands behind the history, and
    /// the line is empty.
    pub open spec fn accepted(&self, post: &Self) -> bool {
        &&& post.same_display(self)
        &&& post.completion == self.completion
        &&& post.history@ == self.history@.push(self.input)
        &&& post.history_index == post.history@.len()
        &&& post.input@ == Seq::<char>::empty()
        &&& post.cursor_position == 0
    }

    pub fn clamp_cursor(&self, new_cursor_pos: usize) -> (r: usize)
        ensures
            r == self.clamped(new_cursor_pos as int),
            byte_len(self.input@) <= usize::MAX,
    {
        let len = len_of(self.input.as_str());
        if new_cursor_pos > len {
            len
        } else {
            new_cursor_pos
        }
    }

    pub fn move_cursor_left(&mut self)
        ensures
            old(self).cursor_left(final(self)),
    {
        let cursor_moved_left = if self.cursor_position == 0 {
            0
        } else {
            self.cursor_position - 1
        };
        self.cursor_position = self.clamp_cursor(cursor_moved_left);
    }

    pub fn move_cursor_right(&mut self)
        ensures
            old(self).cursor_right(final(self)),
    {
        let cursor_moved_right = if self.cursor_position == usize::MAX {
            usize::MAX
        } else {
            self.cursor_position + 1
        };
        self.cursor_position = self.clamp_cursor(cursor_moved_right);
    }

    pub fn reset_cursor(&mut self)
        ensures
            final(self).same_but_cursor(old(self)),
            final(self).cursor_position == 0,
    {
        self.cursor_position = 0;
    }

    /// Goes one line forward in the history.
    pub fn incr_history(&mut self)
        ensures
            old(self).history_forward(final(self)),
    {
        if self.history_index < self.history.len() {
            self.history_index += 1;
            self.input = if self.history_index < self.history.len() {
                self.history[self.history_index].clone()
            } else {
                String::new()
            };
            self.cursor_position = len_of(self.input.as_str());
        }
    }

    /// Goes one line back in the history.
    pub fn decr_history(&mut self)
        ensures
            old(self).history_back(final(self)),
    {
        if self.history_index > 0 && self.history_index <= self.history.len() {
            self.history_index -= 1;
            self.input = self.history[self.history_index].clone();
            self.cursor_position = len_of(self.input.as_str());
        }
    }

    /// Puts `new_char` into the line at the cursor.
    pub fn enter_char(&mut self, new_char: &str)
        ensures
            old(self).char_entered(final(self), new_char@),
    {
        match splice(self.input.as_str(), self.cursor_position, self.cursor_position, new_char) {
            Some(input) => {
                self.input = input;
                self.move_cursor_right();
            },
            None => {},
        }
    }

    /// Takes the character before the cursor out of the line.
    pub fn delete_char(&mut self)
        ensures
            old(self).char_deleted(final(self)),
    {
        let is_not_cursor_leftmost = self.cursor_position != 0;
        if is_not_cursor_leftmost {
            let current_index = self.cursor_position;
            let from_left_to_current_index = current_index - 1;
            let text = self.input.as_str();
            let count = text.unicode_len();
            let before = if from_left_to_current_index < count {
                from_left_to_current_index
            } else {
                count
            };
            let after = if current_index < count {
                current_index
            } else {
                count
            };
            let mut input = String::from_str(text.substring_char(0, before));
            input.append(text.substring_char(after, count));
            self.input = input;
            self.move_cursor_left();
        }
    }

    /// Looks up the names that begin with the name before the cursor.
    pub fn update_completions(&mut self, env: &Env)
        requires
            env.wf(),
        ensures
            old(self).completions_updated(final(self), env@),
    {
        self.completion = None;
        let ghost bytes = name_bytes(self.input@);
        let head = match slice(self.input.as_str(), 0, self.cursor_position) {
            Some(head) => head,
            None => {
                return ;
            },
        };
        proof {
            // the name that ends at the end of the text before the cursor
            // is the name that ends at the cursor
            let cursor = self.cursor_position as int;
            let before = head.spec_bytes();
            vstd::utf8::encode_utf8_valid_utf8(head@);
            vstd::utf8::is_char_boundary_start_end_of_seq(before);
            assert(before.len() == cursor);
            assert(before.subrange(0, cursor) =~= bytes.subrange(0, cursor));
            assert(spec_ident_range(before, cursor) == spec_ident_range(bytes, cursor));
        }
        let name = match get_ident_at_end(head) {
            Some(name) => name,
            None => {
                return ;
            },
        };
        let ghost prefix = name.spec_bytes();
        proof {
            let cursor = self.cursor_position as int;
            let range = spec_ident_range(bytes, cursor)->0;
            let start = range.0;
            assert(prefix =~= bytes.subrange(start, cursor));
            assert(name_before(self.input@, cursor) == Some(prefix));
            assert(prefix == name_bytes(name@));
        }
        let found = env.search(name);
        let mut completions: Vec<String> = Vec::new();
        let mut i: usize = 0;
        while i < found.len()
            invariant
                i <= found@.len(),
                completions@.len() == i,
                forall|j: int| 0 <= j < i ==> (#[trigger] completions@[j])@ == found@[j].0@,
            decreases found.len() - i,
        {
            completions.push(String::from_str(found[i].0));
            i += 1;
        }
        if completions.len() > 0 {
            let completion = Completion { index: 0, completions };
            proof {
                let names = offered(completion);
                assert forall|k: int| 0 <= k < names.len() implies env@.contains_key(
                    #[trigger] names[k],
                ) && is_prefix(prefix, name_bytes(names[k])) by {
                    assert(names[k] == found@[k].0@);
                }
                assert forall|k: int, l: int| 0 <= k < l < names.len() implies lex_lt(
                    #[trigger] name_bytes(names[k]),
                    #[trigger] name_bytes(names[l]),
                ) by {
                    assert(names[k] == found@[k].0@);
                    assert(names[l] == found@[l].0@);
                }
                assert forall|n: Seq<char>|
                    env@.contains_key(n) && is_prefix(prefix, name_bytes(n)) implies exists|k: int|
                    0 <= k < names.len() && #[trigger] names[k] == n by {
                    let k = choose|k: int| 0 <= k < found@.len() && (#[trigger] found@[k]).0@ == n;
                    assert(names[k] == n);
                }
            }
            self.completion = Some(completion);
        } else {
            proof {
                assert forall|n: Seq<char>| env@.contains_key(n) implies !is_prefix(
                    prefix,
                    #[trigger] name_bytes(n),
                ) by {
                    if is_prefix(prefix, name_bytes(n)) {
                        let k = choose|k: int|
                            0 <= k < found@.len() && (#[trigger] found@[k]).0@ == n;
                    }
                }
            }
        }
    }

    /// Replaces the name before the cursor by the name that is picked in
    /// the completion.
    pub fn apply_completion(&mut self)
        ensures
            old(self).completion_applied(final(self)),
    {
        let picked = match &self.completion {
            Some(completion) => {
                if completion.index < completion.completions.len() {
                    completion.completions[completion.index].clone()
                } else {
                    return ;
                }
            },
            None => {
                return ;
            },
        };
        if let Some(range) = get_ident_range(self.input.as_str(), self.cursor_position) {
            if let Some(input) = splice(
                self.input.as_str(),
                range.start,
                range.end,
                picked.as_str(),
            ) {
                let len = len_of(picked.as_str());
                self.input = input;
                self.cursor_position = if len <= usize::MAX - range.start {
                    range.start + len
                } else {
                    usize::MAX
                };
            }
        }
    }

    /// Picks the next name of the completion.
    pub fn completion_next(&mut self)
        ensures
            old(self).completion_down(final(self)),
    {
        let mut completion: Option<Completion> = None;
        std::mem::swap(&mut completion, &mut self.completion);
        if let Some(mut c) = completion {
            let len = c.completions.len();
            c.index = if c.index < len && c.index + 1 < len {
                c.index + 1
            } else if len > 0 {
                len - 1
            } else {
                0
            };
            self.completion = Some(c);
        }
    }

    /// Picks the name before in the completion.
    pub fn completion_previous(&mut self)
        ensures
            old(self).completion_up(final(self)),
    {
        let mut completion: Option<Completion> = None;
        std::mem::swap(&mut completion, &mut self.completion);
        if let Some(mut c) = completion {
            c.index = if c.index > 0 {
                c.index - 1
            } else {
                0
            };
            self.completion = Some(c);
        }
    }

    /// Puts the line that was evaluated at the end of the history and
    /// begins an empty line.
    pub fn accept(&mut self)
        ensures
            old(self).accepted(final(self)),
    {
        let mut line = String::new();
        std::mem::swap(&mut line, &mut self.input);
        self.history.push(line);
        self.history_index = self.history.len();
        self.reset_cursor()
    }

    /// `post` is `self` after the first thing that the key `key` does: with
    /// a completion at hand, Enter and Tab take the name that is picked,
    /// and Down and Up pick another; without one, Up and Down go through
    /// the history.
    pub open spec fn navigated(&self, post: &Self, key: Key) -> bool {
        match self.completion {
            Some(_) => match key {
                Key::Enter | Key::Tab => self.completion_applied(post),
                Key::Down => self.completion_down(post),
                Key::Up => self.completion_up(post),
                _ => *post == *self,
            },
            None => match key {
                Key::Up => self.history_back(post),
                Key::Down => self.history_forward(post),
                _ => *post == *self,
            },
        }
    }

    /// `post` and `action` are what the key `key` does to `self` after
    /// that: Enter asks for the line to be evaluated, a character goes into
    /// the line, Backspace takes one out, and both look up the names for
    /// completion anew; Left and Right move the cursor; Esc leaves.
    pub open spec fn edited(
        &self,
        post: &Self,
        key: Key,
        env: Map<Seq<char>, MemberView>,
        action: KeyAction,
    ) -> bool {
        match key {
            Key::Enter => *post == *self && action == KeyAction::Evaluate,
            Key::Char(text) => action == KeyAction::Continue && exists|mid: App|
                #![auto]
                self.char_entered(&mid, text@) && mid.completions_updated(post, env),
            Key::Backspace => action == KeyAction::Continue && exists|mid: App|
                #![auto]
                self.char_deleted(&mid) && mid.completions_updated(post, env),
            Key::Left => action == KeyAction::Continue && self.cursor_left(post),
            Key::Right => action == KeyAction::Continue && self.cursor_right(post),
            Key::Esc => *post == *self && action == KeyAction::Quit,
            _ => *post == *self && action == KeyAction::Continue,
        }
    }

    /// The first thing that a key does; see [`App::navigated`].
    pub fn navigate(&mut self, key: &Key)
        ensures
            old(self).navigated(final(self), *key),
    {
        if self.completion.is_some() {
            match key {
                Key::Enter | Key::Tab => self.apply_completion(),
                Key::Down => self.completion_next(),
                Key::Up => self.completion_previous(),
                _ => {},
            }
        } else {
            match key {
                Key::Up => self.decr_history(),
                Key::Down => self.incr_history(),
                _ => {},
            }
        }
    }

    /// What a key does after that; see [`App::edited`].
    pub fn edit(&mut self, key: &Key, env: &Env) -> (action: KeyAction)
        requires
            env.wf(),
        ensures
            old(self).edited(final(self), *key, env@, action),
    {
        match key {
            Key::Enter => KeyAction::Evaluate,
            Key::Char(to_insert) => {
                self.enter_char(to_insert.as_str());
                let ghost mid = *self;
                self.update_completions(env);
                assert(old(self).char_entered(&mid, to_insert@) && mid.completions_updated(
                    self,
                    env@,
                ));
                KeyAction::Continue
            },
            Key::Backspace => {
                self.delete_char();
                let ghost mid = *self;
                self.update_completions(env);
                assert(old(self).char_deleted(&mid) && mid.completions_updated(self, env@));
                KeyAction::Continue
            },
            Key::Left => {
                self.move_cursor_left();
                KeyAction::Continue
            },
            Key::Right => {
                self.move_cursor_right();
                KeyAction::Continue
            },
            Key::Esc => KeyAction::Quit,
            _ => KeyAction::Continue,
        }
    }

    /// What a key does to the editor, and what the program is to do next.
    pub fn handle_key(&mut self, key: &Key, env: &Env) -> (action: KeyAction)
        requires
            env.wf(),
        ensures
            exists|mid: App|
                #![auto]
                old(self).navigated(&mid, *key) && mid.edited(final(self), *key, env@, action),
    {
        self.navigate(key);
        let ghost mid = *self;
        let action = self.edit(key, env);
        assert(old(self).navigated(&mid, *key) && mid.edited(self, *key, env@, action));
        action
    }
}

} // verus!
