//! The markup tokenizer: a pull-driven finite automaton that turns a
//! character stream into tag, character and end-of-input tokens.
//!
//! The behaviour of one pull is specified against a mathematical model of
//! the automaton ([`TokenizerModel`]): a single loop iteration is the spec
//! function [`step`], and [`HtmlTokenizer::next`] promises that its result
//! and successor state are reached from the starting state by a finite chain
//! of silent steps followed by one emitting step ([`emits`]). Since `step`
//! is a function, the emitted token and successor state are unique
//! ([`lemma_emits_deterministic`]), so two tokenizers over the same input
//! produce identical token sequences.
//!
//! End of input: the cursor may advance one place past the last character;
//! reading there yields no character and the automaton takes the state's
//! end-of-input branch, finishing with an [`HtmlToken::Eof`] token. (Markup
//! that ends mid-tag therefore ends in `Eof` rather than a fault.) A `<`
//! comparison is always attempted before the end-of-input test, preserving
//! the order of checks of each state.
//!
//! Malformed markup never raises an error: every unexpected character is
//! absorbed by a state's fallback. In `SelfClosingStartTag` the fallback
//! skips the offending character and keeps scanning for `>`, so that every
//! pull terminates ([`lemma_step_decreases`]).
//!
//! The tokenizer never switches itself into `ScriptData` on a `script`
//! start tag; a consumer that wants raw-text handling would have to drive
//! that change of mode. For script text free of markup delimiters the
//! `Data` mode already yields the same token sequence, one `Char` per
//! character up to the closing tag.

use vstd::prelude::*;

use crate::attribute::{AttrModel, Attribute};
use crate::chars::{
    is_alpha, is_ascii_alphabetic_c, is_ascii_uppercase_c, is_upper, lower_char, no_upper,
    push_char, str_to_chars, to_ascii_lowercase_c,
};

verus! {

/// One lexical unit of markup: a start tag with its attributes and
/// self-closing flag, an end tag, one literal character, or the end marker.
#[derive(Debug, Clone, PartialEq, Eq)]
pub enum HtmlToken {
    StartTag { tag: String, self_closing: bool, attributes: Vec<Attribute> },
    EndTag { tag: String },
    Char(char),
    Eof,
}

/// Mathematical image of a token.
pub enum TokenModel {
    StartTag { tag: Seq<char>, self_closing: bool, attributes: Seq<AttrModel> },
    EndTag { tag: Seq<char> },
    Char { c: char },
    Eof,
}

impl View for HtmlToken {
    type V = TokenModel;

    closed spec fn view(&self) -> TokenModel {
        match self {
            HtmlToken::StartTag { tag, self_closing, attributes } => TokenModel::StartTag {
                tag: tag@,
                self_closing: *self_closing,
                attributes: attributes.deep_view(),
            },
            HtmlToken::EndTag { tag } => TokenModel::EndTag { tag: tag@ },
            HtmlToken::Char(c) => TokenModel::Char { c: *c },
            HtmlToken::Eof => TokenModel::Eof,
        }
    }
}

/// The automaton's modes.
#[derive(Debug, Clone, PartialEq, Eq)]
pub enum State {
    Data,
    TagOpen,
    EndTagOpen,
    TagName,
    BeforeAttributeName,
    AttributeName,
    AfterAttributeName,
    BeforeAttributeValue,
    AttributeValueDoubleQuoted,
    AttributeValueSingleQuoted,
    AttributeValueUnquoted,
    AfterAttributeValueQuoted,
    SelfClosingStartTag,
    ScriptData,
    ScriptDataLessThanSign,
    ScriptDataEndTagOpen,
    ScriptDataEndTagName,
    TemporaryBuffer,
}

/// Mathematical image of a tokenizer: the input characters, the cursor
/// (`pos` is one past the last consumed character, and `input.len() + 1`
/// once the end of input itself has been consumed), the reconsume flag, the
/// mode, the in-progress tag, and the script lookback buffer.
pub struct TokenizerModel {
    pub input: Seq<char>,
    pub pos: nat,
    pub reconsume: bool,
    pub state: State,
    pub latest: Option<TokenModel>,
    pub buf: Seq<char>,
}

/// The markup tokenizer. Construct it over the whole input, then pull
/// tokens with [`HtmlTokenizer::next`] until it yields nothing.
#[derive(Debug, Clone, PartialEq, Eq)]
pub struct HtmlTokenizer {
    state: State,
    pos: usize,
    past_end: bool,
    reconsume: bool,
    latest_token: Option<HtmlToken>,
    input: Vec<char>,
    buf: Vec<char>,
}

impl View for HtmlTokenizer {
    type V = TokenizerModel;

    closed spec fn view(&self) -> TokenizerModel {
        TokenizerModel {
            input: self.input@,
            pos: self.pos as nat + if self.past_end {
                1nat
            } else {
                0nat
            },
            reconsume: self.reconsume,
            state: self.state,
            latest: match self.latest_token {
                Some(t) => Some(t@),
                None => None,
            },
            buf: self.buf@,
        }
    }
}

/// The modes in which an in-progress tag must exist.
pub open spec fn state_needs_token(s: State) -> bool {
    match s {
        State::Data => false,
        State::TagOpen => false,
        State::EndTagOpen => false,
        State::ScriptData => false,
        State::ScriptDataLessThanSign => false,
        State::ScriptDataEndTagOpen => false,
        State::TemporaryBuffer => false,
        _ => true,
    }
}

/// Every attribute's name is free of ASCII uppercase letters.
pub open spec fn attrs_wf(attributes: Seq<AttrModel>) -> bool {
    forall|i: int| 0 <= i < attributes.len() ==> no_upper(#[trigger] attributes[i].name)
}

/// What may sit in the in-progress slot: a tag whose name, and whose
/// attributes' names, hold no ASCII uppercase letter.
pub open spec fn token_wf(t: TokenModel) -> bool {
    match t {
        TokenModel::StartTag { tag, attributes, .. } => no_upper(tag) && attrs_wf(attributes),
        TokenModel::EndTag { tag } => no_upper(tag),
        _ => false,
    }
}

/// Every emitted token satisfies this: tag and attribute names carry no
/// ASCII uppercase letter, whatever the case of the source text.
pub open spec fn token_lower(t: TokenModel) -> bool {
    match t {
        TokenModel::Char { .. } => true,
        TokenModel::Eof => true,
        _ => token_wf(t),
    }
}

/// The modes in which a pending reconsume can ever be left for the next
/// step: the targets of transitions that raise the flag.
pub open spec fn reconsumable(s: State) -> bool {
    match s {
        State::Data => true,
        State::TagName => true,
        State::AttributeName => true,
        State::AfterAttributeName => true,
        State::BeforeAttributeValue => true,
        State::AttributeValueUnquoted => true,
        State::ScriptData => true,
        State::ScriptDataEndTagName => true,
        State::TemporaryBuffer => true,
        _ => false,
    }
}

/// Well-formed model: the cursor is at most one past the end, a pending
/// reconsume has a character (or the end marker) behind it and sits only in
/// a mode that reconsumes, the in-progress slot holds only well-formed
/// tags, and modes that mutate the in-progress tag have one.
pub open spec fn model_wf(m: TokenizerModel) -> bool {
    &&& m.pos <= m.input.len() + 1
    &&& (m.reconsume ==> m.pos >= 1)
    &&& (m.reconsume ==> reconsumable(m.state))
    &&& match m.latest {
        Some(t) => token_wf(t),
        None => true,
    }
    &&& (state_needs_token(m.state) ==> m.latest is Some)
}

/// No silent run is longer than this: every step either spends the pending
/// reconsume or moves the cursor.
pub open spec fn fuel_left(m: TokenizerModel) -> int {
    2 * (m.input.len() + 2 - m.pos) + if m.reconsume {
        1int
    } else {
        0int
    }
}

/// Tie-breaker for the silent steps that re-raise the reconsume flag
/// without moving the cursor: each of them strictly lowers this rank.
pub open spec fn silent_rank(m: TokenizerModel) -> int {
    let c = read_char(m);
    match m.state {
        State::AttributeName => if c == Some(' ') || c == Some('/') || c == Some('>')
            || c is None {
            1int
        } else {
            0int
        },
        State::AfterAttributeName => if c == Some(' ') || c == Some('/') || c == Some('=')
            || c == Some('>') || c is None {
            0int
        } else {
            1int
        },
        State::BeforeAttributeValue => 1int,
        State::TemporaryBuffer => 1int,
        _ => 0int,
    }
}

/// A cursor one past the end with no reconsume pending occurs only while
/// the lookback buffer is still being drained.
pub open spec fn at_end_draining(m: TokenizerModel) -> bool {
    m.pos == m.input.len() + 1 && !m.reconsume ==> m.state is TemporaryBuffer && m.buf.len() >= 1
}

/// The character a step works on: the one behind the cursor when a
/// reconsume is pending, the one under it otherwise; nothing once the
/// cursor is past the end.
pub open spec fn read_char(m: TokenizerModel) -> Option<char> {
    if m.reconsume {
        if 1 <= m.pos && m.pos <= m.input.len() {
            Some(m.input[m.pos - 1])
        } else {
            None
        }
    } else {
        if m.pos < m.input.len() {
            Some(m.input[m.pos as int])
        } else {
            None
        }
    }
}

/// The model after the read: the reconsume flag is spent, or the cursor
/// advances (to one past the end at most).
pub open spec fn after_read(m: TokenizerModel) -> TokenizerModel {
    if m.reconsume {
        TokenizerModel { reconsume: false, ..m }
    } else {
        TokenizerModel {
            pos: if m.pos < m.input.len() {
                m.pos + 1
            } else {
                m.input.len() + 1
            },
            ..m
        }
    }
}

pub open spec fn with_state(m: TokenizerModel, s: State) -> TokenizerModel {
    TokenizerModel { state: s, ..m }
}

pub open spec fn with_reconsume(m: TokenizerModel) -> TokenizerModel {
    TokenizerModel { reconsume: true, ..m }
}

pub open spec fn with_buf(m: TokenizerModel, b: Seq<char>) -> TokenizerModel {
    TokenizerModel { buf: b, ..m }
}

/// The model after the in-progress tag has been moved out and the automaton
/// has returned to mode `s`.
pub open spec fn emitted(m: TokenizerModel, s: State) -> TokenizerModel {
    TokenizerModel { state: s, latest: None, ..m }
}

/// A fresh, empty start or end tag is placed in the in-progress slot.
pub open spec fn model_create_tag(m: TokenizerModel, start_tag_token: bool) -> TokenizerModel {
    TokenizerModel {
        latest: Some(
            if start_tag_token {
                TokenModel::StartTag {
                    tag: Seq::empty(),
                    self_closing: false,
                    attributes: Seq::empty(),
                }
            } else {
                TokenModel::EndTag { tag: Seq::empty() }
            },
        ),
        ..m
    }
}

/// One character is appended to the in-progress tag's name; without a tag
/// in progress nothing changes.
pub open spec fn model_append_tag_name(m: TokenizerModel, c: char) -> TokenizerModel {
    match m.latest {
        Some(TokenModel::StartTag { tag, self_closing, attributes }) => TokenizerModel {
            latest: Some(TokenModel::StartTag { tag: tag.push(c), self_closing, attributes }),
            ..m
        },
        Some(TokenModel::EndTag { tag }) => TokenizerModel {
            latest: Some(TokenModel::EndTag { tag: tag.push(c) }),
            ..m
        },
        _ => m,
    }
}

/// A fresh, empty attribute is appended to an in-progress start tag; an end
/// tag never holds attributes, so anything else is left unchanged.
pub open spec fn model_start_new_attribute(m: TokenizerModel) -> TokenizerModel {
    match m.latest {
        Some(TokenModel::StartTag { tag, self_closing, attributes }) => TokenizerModel {
            latest: Some(
                TokenModel::StartTag {
                    tag,
                    self_closing,
                    attributes: attributes.push(
                        AttrModel { name: Seq::empty(), value: Seq::empty() },
                    ),
                },
            ),
            ..m
        },
        _ => m,
    }
}

/// One character is appended to the name or the value of the most recently
/// started attribute of an in-progress start tag; without such an attribute
/// nothing changes.
pub open spec fn model_append_attribute(m: TokenizerModel, c: char, is_name: bool) -> TokenizerModel {
    match m.latest {
        Some(TokenModel::StartTag { tag, self_closing, attributes }) => {
            if attributes.len() > 0 {
                let last = attributes[attributes.len() - 1];
                let updated = if is_name {
                    AttrModel { name: last.name.push(c), value: last.value }
                } else {
                    AttrModel { name: last.name, value: last.value.push(c) }
                };
                TokenizerModel {
                    latest: Some(
                        TokenModel::StartTag {
                            tag,
                            self_closing,
                            attributes: attributes.update(attributes.len() - 1, updated),
                        },
                    ),
                    ..m
                }
            } else {
                m
            }
        },
        _ => m,
    }
}

/// The self-closing flag of an in-progress start tag is raised; an end tag
/// has no such flag, so anything else is left unchanged.
pub open spec fn model_set_self_closing(m: TokenizerModel) -> TokenizerModel {
    match m.latest {
        Some(TokenModel::StartTag { tag, self_closing, attributes }) => TokenizerModel {
            latest: Some(TokenModel::StartTag { tag, self_closing: true, attributes }),
            ..m
        },
        _ => m,
    }
}

/// Pushing a non-uppercase character keeps a sequence uppercase-free.
proof fn lemma_no_upper_push(s: Seq<char>, c: char)
    requires
        no_upper(s),
        !is_upper(c),
    ensures
        no_upper(s.push(c)),
{
    assert forall|i: int| 0 <= i < s.push(c).len() implies !is_upper(s.push(c)[i]) by {
        if i < s.len() {
            assert(s.push(c)[i] == s[i]);
        } else {
            assert(s.push(c)[i] == c);
        }
    }
}

/// Appending a non-uppercase character to the in-progress tag's name keeps
/// the slot well formed.
proof fn lemma_no_upper_push_tag(m: TokenizerModel, c: char)
    requires
        !is_upper(c),
        match m.latest {
            Some(t) => token_wf(t),
            None => true,
        },
    ensures
        match model_append_tag_name(m, c).latest {
            Some(t) => token_wf(t),
            None => true,
        },
{
    match m.latest {
        Some(TokenModel::StartTag { tag, .. }) => {
            lemma_no_upper_push(tag, c);
        },
        Some(TokenModel::EndTag { tag }) => {
            lemma_no_upper_push(tag, c);
        },
        _ => {},
    }
}

/// Starting a fresh attribute keeps the slot well formed.
proof fn lemma_start_attr_wf(m: TokenizerModel)
    requires
        match m.latest {
            Some(t) => token_wf(t),
            None => true,
        },
    ensures
        match model_start_new_attribute(m).latest {
            Some(t) => token_wf(t),
            None => true,
        },
{
    match m.latest {
        Some(TokenModel::StartTag { tag, self_closing, attributes }) => {
            let a = AttrModel { name: Seq::empty(), value: Seq::empty() };
            let na = attributes.push(a);
            assert forall|i: int| 0 <= i < na.len() implies no_upper(#[trigger] na[i].name) by {
                if i < attributes.len() {
                    assert(na[i] == attributes[i]);
                } else {
                    assert(na[i] == a);
                }
            }
        },
        _ => {},
    }
}

/// Appending to the latest attribute (lowercased when to its name) keeps
/// the slot well formed.
proof fn lemma_append_attr_wf(m: TokenizerModel, c: char, is_name: bool)
    requires
        is_name ==> !is_upper(c),
        match m.latest {
            Some(t) => token_wf(t),
            None => true,
        },
    ensures
        match model_append_attribute(m, c, is_name).latest {
            Some(t) => token_wf(t),
            None => true,
        },
{
    match m.latest {
        Some(TokenModel::StartTag { tag, self_closing, attributes }) => {
            if attributes.len() > 0 {
                let last = attributes[attributes.len() - 1];
                let updated = if is_name {
                    AttrModel { name: last.name.push(c), value: last.value }
                } else {
                    AttrModel { name: last.name, value: last.value.push(c) }
                };
                if is_name {
                    lemma_no_upper_push(last.name, c);
                }
                let na = attributes.update(attributes.len() - 1, updated);
                assert forall|i: int| 0 <= i < na.len() implies no_upper(#[trigger] na[i].name) by {
                    if i != attributes.len() - 1 {
                        assert(na[i] == attributes[i]);
                    }
                }
            }
        },
        _ => {},
    }
}

/// Outcome of one loop iteration: carry on silently, or return a token.
pub enum StepRes {
    Next(TokenizerModel),
    Emit(TokenizerModel, TokenModel),
}

/// The state-transition table, applied to the model after its read. Each
/// arm mirrors one mode: character classes drive the transitions and
/// unlisted characters fall to the mode's default action.
pub open spec fn dispatch(m: TokenizerModel, c: Option<char>) -> StepRes {
    match m.state {
        State::Data => {
            if c == Some('<') {
                StepRes::Next(with_state(m, State::TagOpen))
            } else if c is None {
                StepRes::Emit(m, TokenModel::Eof)
            } else {
                StepRes::Emit(m, TokenModel::Char { c: c->0 })
            }
        },
        State::TagOpen => {
            if c == Some('/') {
                StepRes::Next(with_state(m, State::EndTagOpen))
            } else if c is Some && is_alpha(c->0) {
                StepRes::Next(model_create_tag(with_reconsume(with_state(m, State::TagName)), true))
            } else if c is None {
                StepRes::Emit(m, TokenModel::Eof)
            } else {
                StepRes::Next(with_reconsume(with_state(m, State::Data)))
            }
        },
        State::EndTagOpen => {
            if c is None {
                StepRes::Emit(m, TokenModel::Eof)
            } else if is_alpha(c->0) {
                StepRes::Next(
                    model_create_tag(with_reconsume(with_state(m, State::TagName)), false),
                )
            } else {
                StepRes::Next(m)
            }
        },
        State::TagName => {
            if c == Some(' ') {
                StepRes::Next(with_state(m, State::BeforeAttributeName))
            } else if c == Some('/') {
                StepRes::Next(with_state(m, State::SelfClosingStartTag))
            } else if c == Some('>') {
                StepRes::Emit(emitted(m, State::Data), m.latest->0)
            } else if c is Some && is_upper(c->0) {
                StepRes::Next(model_append_tag_name(m, lower_char(c->0)))
            } else if c is None {
                StepRes::Emit(m, TokenModel::Eof)
            } else {
                StepRes::Next(model_append_tag_name(m, c->0))
            }
        },
        State::BeforeAttributeName => {
            if c == Some('/') || c == Some('>') || c is None {
                StepRes::Next(with_reconsume(with_state(m, State::AfterAttributeName)))
            } else {
                StepRes::Next(
                    model_start_new_attribute(with_reconsume(with_state(m, State::AttributeName))),
                )
            }
        },
        State::AttributeName => {
            if c == Some(' ') || c == Some('/') || c == Some('>') || c is None {
                StepRes::Next(with_reconsume(with_state(m, State::AfterAttributeName)))
            } else if c == Some('=') {
                StepRes::Next(with_state(m, State::BeforeAttributeValue))
            } else if is_upper(c->0) {
                StepRes::Next(model_append_attribute(m, lower_char(c->0), true))
            } else {
                StepRes::Next(model_append_attribute(m, c->0, true))
            }
        },
        State::AfterAttributeName => {
            if c == Some(' ') {
                StepRes::Next(m)
            } else if c == Some('/') {
                StepRes::Next(with_state(m, State::SelfClosingStartTag))
            } else if c == Some('=') {
                StepRes::Next(with_state(m, State::BeforeAttributeValue))
            } else if c == Some('>') {
                StepRes::Emit(emitted(m, State::Data), m.latest->0)
            } else if c is None {
                StepRes::Emit(m, TokenModel::Eof)
            } else {
                StepRes::Next(
                    model_start_new_attribute(with_reconsume(with_state(m, State::AttributeName))),
                )
            }
        },
        State::BeforeAttributeValue => {
            if c == Some(' ') {
                StepRes::Next(m)
            } else if c == Some('"') {
                StepRes::Next(with_state(m, State::AttributeValueDoubleQuoted))
            } else if c == Some('\'') {
                StepRes::Next(with_state(m, State::AttributeValueSingleQuoted))
            } else {
                StepRes::Next(with_reconsume(with_state(m, State::AttributeValueUnquoted)))
            }
        },
        State::AttributeValueDoubleQuoted => {
            if c == Some('"') {
                StepRes::Next(with_state(m, State::AfterAttributeValueQuoted))
            } else if c is None {
                StepRes::Emit(m, TokenModel::Eof)
            } else {
                StepRes::Next(model_append_attribute(m, c->0, false))
            }
        },
        State::AttributeValueSingleQuoted => {
            if c == Some('\'') {
                StepRes::Next(with_state(m, State::AfterAttributeValueQuoted))
            } else if c is None {
                StepRes::Emit(m, TokenModel::Eof)
            } else {
                StepRes::Next(model_append_attribute(m, c->0, false))
            }
        },
        State::AttributeValueUnquoted => {
            if c == Some(' ') {
                StepRes::Next(with_state(m, State::BeforeAttributeName))
            } else if c == Some('>') {
                StepRes::Emit(emitted(m, State::Data), m.latest->0)
            } else if c is None {
                StepRes::Emit(m, TokenModel::Eof)
            } else {
                StepRes::Next(model_append_attribute(m, c->0, false))
            }
        },
        State::AfterAttributeValueQuoted => {
            if c == Some(' ') {
                StepRes::Next(with_state(m, State::BeforeAttributeName))
            } else if c == Some('/') {
                StepRes::Next(with_state(m, State::SelfClosingStartTag))
            } else if c == Some('>') {
                StepRes::Emit(emitted(m, State::Data), m.latest->0)
            } else if c is None {
                StepRes::Emit(m, TokenModel::Eof)
            } else {
                StepRes::Next(with_reconsume(with_state(m, State::BeforeAttributeValue)))
            }
        },
        State::SelfClosingStartTag => {
            if c == Some('>') {
                let m1 = model_set_self_closing(m);
                StepRes::Emit(emitted(m1, State::Data), m1.latest->0)
            } else if c is None {
                StepRes::Emit(m, TokenModel::Eof)
            } else {
                StepRes::Next(m)
            }
        },
        State::ScriptData => {
            if c == Some('<') {
                StepRes::Next(with_state(m, State::ScriptDataLessThanSign))
            } else if c is None {
                StepRes::Emit(m, TokenModel::Eof)
            } else {
                StepRes::Emit(m, TokenModel::Char { c: c->0 })
            }
        },
        State::ScriptDataLessThanSign => {
            if c == Some('/') {
                StepRes::Next(with_state(with_buf(m, Seq::empty()), State::ScriptDataEndTagOpen))
            } else {
                StepRes::Emit(
                    with_reconsume(with_state(m, State::ScriptData)),
                    TokenModel::Char { c: '<' },
                )
            }
        },
        State::ScriptDataEndTagOpen => {
            if c is Some && is_alpha(c->0) {
                StepRes::Next(
                    model_create_tag(
                        with_reconsume(with_state(m, State::ScriptDataEndTagName)),
                        false,
                    ),
                )
            } else {
                StepRes::Emit(
                    with_reconsume(with_state(m, State::ScriptData)),
                    TokenModel::Char { c: '<' },
                )
            }
        },
        State::ScriptDataEndTagName => {
            if c == Some('>') {
                StepRes::Emit(emitted(m, State::ScriptData), m.latest->0)
            } else if c is Some && is_alpha(c->0) {
                StepRes::Next(
                    model_append_tag_name(with_buf(m, m.buf.push(c->0)), lower_char(c->0)),
                )
            } else {
                let appended = if c is Some {
                    seq![c->0]
                } else {
                    Seq::<char>::empty()
                };
                StepRes::Next(
                    with_state(
                        with_buf(m, seq!['<', '/'] + m.buf + appended),
                        State::TemporaryBuffer,
                    ),
                )
            }
        },
        State::TemporaryBuffer => {
            if m.buf.len() == 0 {
                StepRes::Next(with_state(with_reconsume(m), State::ScriptData))
            } else {
                StepRes::Emit(
                    with_buf(with_reconsume(m), m.buf.drop_first()),
                    TokenModel::Char { c: m.buf[0] },
                )
            }
        },
    }
}

/// One loop iteration of the automaton: read, then transition.
pub open spec fn step(m: TokenizerModel) -> StepRes {
    dispatch(after_read(m), read_char(m))
}

/// The model after `n` silent steps from `m`; nothing if a step within
/// emits a token.
pub open spec fn advance(m: TokenizerModel, n: nat) -> Option<TokenizerModel>
    decreases n,
{
    if n == 0 {
        Some(m)
    } else {
        match advance(m, (n - 1) as nat) {
            Some(mp) => match step(mp) {
                StepRes::Next(m2) => Some(m2),
                StepRes::Emit(..) => None,
            },
            None => None,
        }
    }
}

/// From `m0`, `n` silent steps followed by one emitting step produce the
/// token `t` and leave the automaton in `m1`.
pub open spec fn emits(m0: TokenizerModel, n: nat, m1: TokenizerModel, t: TokenModel) -> bool {
    match advance(m0, n) {
        Some(mp) => step(mp) == StepRes::Emit(m1, t),
        None => false,
    }
}

/// Every silent step makes progress: it lowers the fuel, or keeps the fuel
/// and lowers the rank; and it keeps [`at_end_draining`]. Hence each pull
/// performs a bounded amount of work.
#[verifier::rlimit(100)]
proof fn lemma_step_decreases(m: TokenizerModel)
    requires
        model_wf(m),
        at_end_draining(m),
    ensures
        match step(m) {
            StepRes::Next(m2) => at_end_draining(m2) && (fuel_left(m2) < fuel_left(m) || (
            fuel_left(m2) == fuel_left(m) && silent_rank(m2) < silent_rank(m))),
            StepRes::Emit(..) => true,
        },
{
}

/// A silent-step chain that has failed stays failed.
proof fn lemma_advance_none(m: TokenizerModel, k: nat, j: nat)
    requires
        advance(m, k) is None,
        k <= j,
    ensures
        advance(m, j) is None,
    decreases j,
{
    if j > k {
        lemma_advance_none(m, k, (j - 1) as nat);
    }
}

/// Law: the automaton is deterministic. From one starting model there is at
/// most one emission: the step counts, the successor models and the tokens
/// coincide. Together with the contracts of [`HtmlTokenizer::new`] and
/// [`HtmlTokenizer::next`], tokenizing the same input twice with fresh
/// instances yields identical token sequences, pull after pull.
pub proof fn lemma_emits_deterministic(
    m0: TokenizerModel,
    n1: nat,
    m1: TokenizerModel,
    t1: TokenModel,
    n2: nat,
    m2: TokenizerModel,
    t2: TokenModel,
)
    requires
        emits(m0, n1, m1, t1),
        emits(m0, n2, m2, t2),
    ensures
        n1 == n2,
        m1 == m2,
        t1 == t2,
{
    if n1 < n2 {
        assert(advance(m0, n1 + 1) is None);
        lemma_advance_none(m0, n1 + 1, n2);
    } else if n2 < n1 {
        assert(advance(m0, n2 + 1) is None);
        lemma_advance_none(m0, n2 + 1, n1);
    }
}

/// The starting model over a given input.
pub open spec fn init_model(input: Seq<char>) -> TokenizerModel {
    TokenizerModel {
        input,
        pos: 0,
        reconsume: false,
        state: State::Data,
        latest: None,
        buf: Seq::empty(),
    }
}

impl HtmlTokenizer {
    /// Representation bounds tying the concrete cursor to the model's.
    pub closed spec fn rep_ok(&self) -> bool {
        &&& (self.past_end ==> self.pos == self.input.len())
        &&& (!self.past_end ==> self.pos <= self.input.len())
    }

    /// The tokenizer is well formed: its representation is in bounds and
    /// its model satisfies [`model_wf`]. Established by
    /// [`HtmlTokenizer::new`] and preserved by every pull.
    pub closed spec fn wf(&self) -> bool {
        self.rep_ok() && model_wf(self@)
    }

    /// A tokenizer at the start of `html`, with nothing consumed, nothing
    /// in progress and an empty lookback buffer.
    pub fn new(html: String) -> (r: Self)
        ensures
            r@ == init_model(html@),
            r.wf(),
    {
        HtmlTokenizer {
            state: State::Data,
            pos: 0,
            past_end: false,
            reconsume: false,
            latest_token: None,
            input: str_to_chars(html.as_str()),
            buf: Vec::new(),
        }
    }

    /// Reads the character under the cursor and advances it; yields nothing
    /// at the end of input (the cursor then stands one past the end).
    fn consume_next_input(&mut self) -> (c: Option<char>)
        requires
            old(self).wf(),
            !old(self).reconsume,
        ensures
            final(self).wf(),
            c == read_char(old(self)@),
            final(self)@ == after_read(old(self)@),
            final(self)@.pos >= 1,
    {
        if self.pos < self.input.len() {
            let c = self.input[self.pos];
            self.pos = self.pos + 1;
            Some(c)
        } else {
            self.past_end = true;
            None
        }
    }

    /// Spends the reconsume flag and reads the character behind the cursor
    /// again; nothing if that read was already past the end.
    fn reconsume_input(&mut self) -> (c: Option<char>)
        requires
            old(self).wf(),
            old(self).reconsume,
        ensures
            final(self).wf(),
            c == read_char(old(self)@),
            final(self)@ == after_read(old(self)@),
            final(self)@.pos >= 1,
    {
        self.reconsume = false;
        if self.past_end {
            None
        } else {
            Some(self.input[self.pos - 1])
        }
    }

    /// Places a fresh, empty start or end tag in the in-progress slot.
    fn create_tag(&mut self, start_tag_token: bool)
        ensures
            final(self)@ == model_create_tag(old(self)@, start_tag_token),
            final(self).rep_ok() == old(self).rep_ok(),
    {
        if start_tag_token {
            let attributes: Vec<Attribute> = Vec::new();
            proof {
                assert(attributes.deep_view() =~= Seq::<AttrModel>::empty());
            }
            self.latest_token = Some(
                HtmlToken::StartTag { tag: String::new(), self_closing: false, attributes },
            );
        } else {
            self.latest_token = Some(HtmlToken::EndTag { tag: String::new() });
        }
    }

    /// Appends one character to the in-progress tag's name. A tag must be
    /// in progress.
    fn append_tag_name(&mut self, c: char)
        requires
            old(self)@.latest is Some,
        ensures
            final(self)@ == model_append_tag_name(old(self)@, c),
            final(self).rep_ok() == old(self).rep_ok(),
    {
        let t = self.latest_token.take();
        match t {
            Some(HtmlToken::StartTag { mut tag, self_closing, attributes }) => {
                push_char(&mut tag, c);
                self.latest_token = Some(HtmlToken::StartTag { tag, self_closing, attributes });
            },
            Some(HtmlToken::EndTag { mut tag }) => {
                push_char(&mut tag, c);
                self.latest_token = Some(HtmlToken::EndTag { tag });
            },
            other => {
                self.latest_token = other;
            },
        }
    }

    /// Moves the finished tag out of the in-progress slot. A tag must be in
    /// progress.
    fn take_latest_token(&mut self) -> (t: HtmlToken)
        requires
            old(self)@.latest is Some,
        ensures
            final(self)@ == (TokenizerModel { latest: None, ..old(self)@ }),
            t@ == old(self)@.latest->0,
            final(self).rep_ok() == old(self).rep_ok(),
    {
        self.latest_token.take().unwrap()
    }

    /// Appends a fresh, empty attribute to the in-progress start tag; an
    /// end tag never holds attributes, so on one this does nothing. A tag
    /// must be in progress.
    fn start_new_attribute(&mut self)
        requires
            old(self)@.latest is Some,
        ensures
            final(self)@ == model_start_new_attribute(old(self)@),
            final(self).rep_ok() == old(self).rep_ok(),
    {
        let t = self.latest_token.take();
        match t {
            Some(HtmlToken::StartTag { tag, self_closing, mut attributes }) => {
                attributes.push(Attribute::new());
                proof {
                    assert(attributes.deep_view() =~~= old(
                        self,
                    )@.latest->0->StartTag_attributes.push(
                        AttrModel { name: Seq::empty(), value: Seq::empty() },
                    ));
                }
                self.latest_token = Some(HtmlToken::StartTag { tag, self_closing, attributes });
            },
            other => {
                self.latest_token = other;
            },
        }
    }

    /// Appends one character to the name or the value of the most recently
    /// started attribute of the in-progress start tag. A tag must be in
    /// progress.
    fn append_attribute(&mut self, c: char, is_name: bool)
        requires
            old(self)@.latest is Some,
        ensures
            final(self)@ == model_append_attribute(old(self)@, c, is_name),
            final(self).rep_ok() == old(self).rep_ok(),
    {
        let t = self.latest_token.take();
        match t {
            Some(HtmlToken::StartTag { tag, self_closing, mut attributes }) => {
                let ghost attrs0 = attributes.deep_view();
                match attributes.pop() {
                    Some(mut a) => {
                        a.addr_char(c, is_name);
                        attributes.push(a);
                        proof {
                            assert(attributes.deep_view() =~~= attrs0.update(
                                attrs0.len() - 1,
                                attributes.deep_view()[attrs0.len() - 1],
                            ));
                        }
                    },
                    None => {},
                }
                self.latest_token = Some(HtmlToken::StartTag { tag, self_closing, attributes });
            },
            other => {
                self.latest_token = other;
            },
        }
    }

    /// One loop iteration: read one character (or the end marker) and act
    /// on it in the current mode. Yields the token to emit, or nothing when
    /// the automaton merely changed state.
    #[verifier::rlimit(60)]
    fn step_once(&mut self) -> (r: Option<HtmlToken>)
        requires
            old(self).wf(),
        ensures
            final(self).wf(),
            match r {
                None => step(old(self)@) == StepRes::Next(final(self)@),
                Some(t) => step(old(self)@) == StepRes::Emit(final(self)@, t@) && token_lower(t@),
            },
    {
        let ghost m0 = self@;
        let c = if self.reconsume {
            self.reconsume_input()
        } else {
            self.consume_next_input()
        };
        let ghost mr = self@;
        proof {
            assert(step(m0) == dispatch(mr, c));
        }
        match self.state {
            State::Data => match c {
                Some('<') => {
                    self.state = State::TagOpen;
                    None
                },
                None => Some(HtmlToken::Eof),
                Some(ch) => Some(HtmlToken::Char(ch)),
            },
            State::TagOpen => match c {
                Some('/') => {
                    self.state = State::EndTagOpen;
                    None
                },
                Some(ch) => {
                    if is_ascii_alphabetic_c(ch) {
                        self.reconsume = true;
                        self.state = State::TagName;
                        self.create_tag(true);
                        None
                    } else {
                        self.reconsume = true;
                        self.state = State::Data;
                        None
                    }
                },
                None => Some(HtmlToken::Eof),
            },
            State::EndTagOpen => match c {
                None => Some(HtmlToken::Eof),
                Some(ch) => {
                    if is_ascii_alphabetic_c(ch) {
                        self.reconsume = true;
                        self.state = State::TagName;
                        self.create_tag(false);
                    }
                    None
                },
            },
            State::TagName => match c {
                Some(' ') => {
                    self.state = State::BeforeAttributeName;
                    None
                },
                Some('/') => {
                    self.state = State::SelfClosingStartTag;
                    None
                },
                Some('>') => {
                    self.state = State::Data;
                    let t = self.take_latest_token();
                    Some(t)
                },
                None => Some(HtmlToken::Eof),
                Some(ch) => {
                    if is_ascii_uppercase_c(ch) {
                        let lc = to_ascii_lowercase_c(ch);
                        proof {
                            lemma_no_upper_push_tag(mr, lower_char(ch));
                        }
                        self.append_tag_name(lc);
                    } else {
                        proof {
                            lemma_no_upper_push_tag(mr, ch);
                        }
                        self.append_tag_name(ch);
                    }
                    None
                },
            },
            State::BeforeAttributeName => match c {
                Some('/') | Some('>') | None => {
                    self.reconsume = true;
                    self.state = State::AfterAttributeName;
                    None
                },
                Some(_) => {
                    self.reconsume = true;
                    self.state = State::AttributeName;
                    proof {
                        lemma_start_attr_wf(self@);
                    }
                    self.start_new_attribute();
                    None
                },
            },
            State::AttributeName => match c {
                Some(' ') | Some('/') | Some('>') | None => {
                    self.reconsume = true;
                    self.state = State::AfterAttributeName;
                    None
                },
                Some('=') => {
                    self.state = State::BeforeAttributeValue;
                    None
                },
                Some(ch) => {
                    if is_ascii_uppercase_c(ch) {
                        let lc = to_ascii_lowercase_c(ch);
                        proof {
                            lemma_append_attr_wf(mr, lower_char(ch), true);
                        }
                        self.append_attribute(lc, true);
                    } else {
                        proof {
                            lemma_append_attr_wf(mr, ch, true);
                        }
                        self.append_attribute(ch, true);
                    }
                    None
                },
            },
            State::AfterAttributeName => match c {
                Some(' ') => None,
                Some('/') => {
                    self.state = State::SelfClosingStartTag;
                    None
                },
                Some('=') => {
                    self.state = State::BeforeAttributeValue;
                    None
                },
                Some('>') => {
                    self.state = State::Data;
                    let t = self.take_latest_token();
                    Some(t)
                },
                None => Some(HtmlToken::Eof),
                Some(_) => {
                    self.reconsume = true;
                    self.state = State::AttributeName;
                    proof {
                        lemma_start_attr_wf(self@);
                    }
                    self.start_new_attribute();
                    None
                },
            },
            State::BeforeAttributeValue => match c {
                Some(' ') => None,
                Some('"') => {
                    self.state = State::AttributeValueDoubleQuoted;
                    None
                },
                Some('\'') => {
                    self.state = State::AttributeValueSingleQuoted;
                    None
                },
                _ => {
                    self.reconsume = true;
                    self.state = State::AttributeValueUnquoted;
                    None
                },
            },
            State::AttributeValueDoubleQuoted => match c {
                Some('"') => {
                    self.state = State::AfterAttributeValueQuoted;
                    None
                },
                None => Some(HtmlToken::Eof),
                Some(ch) => {
                    proof {
                        lemma_append_attr_wf(mr, ch, false);
                    }
                    self.append_attribute(ch, false);
                    None
                },
            },
            State::AttributeValueSingleQuoted => match c {
                Some('\'') => {
                    self.state = State::AfterAttributeValueQuoted;
                    None
                },
                None => Some(HtmlToken::Eof),
                Some(ch) => {
                    proof {
                        lemma_append_attr_wf(mr, ch, false);
                    }
                    self.append_attribute(ch, false);
                    None
                },
            },
            State::AttributeValueUnquoted => match c {
                Some(' ') => {
                    self.state = State::BeforeAttributeName;
                    None
                },
                Some('>') => {
                    self.state = State::Data;
                    let t = self.take_latest_token();
                    Some(t)
                },
                None => Some(HtmlToken::Eof),
                Some(ch) => {
                    proof {
                        lemma_append_attr_wf(mr, ch, false);
                    }
                    self.append_attribute(ch, false);
                    None
                },
            },
            State::AfterAttributeValueQuoted => match c {
                Some(' ') => {
                    self.state = State::BeforeAttributeName;
                    None
                },
                Some('/') => {
                    self.state = State::SelfClosingStartTag;
                    None
                },
                Some('>') => {
                    self.state = State::Data;
                    let t = self.take_latest_token();
                    Some(t)
                },
                None => Some(HtmlToken::Eof),
                Some(_) => {
                    self.reconsume = true;
                    self.state = State::BeforeAttributeValue;
                    None
                },
            },
            State::SelfClosingStartTag => match c {
                Some('>') => {
                    self.set_self_closing_flag();
                    self.state = State::Data;
                    let t = self.take_latest_token();
                    Some(t)
                },
                None => Some(HtmlToken::Eof),
                Some(_) => {
                    // malformed input is tolerated: the character is
                    // skipped and the mode keeps scanning for `>`
                    None
                },
            },
            State::ScriptData => match c {
                Some('<') => {
                    self.state = State::ScriptDataLessThanSign;
                    None
                },
                None => Some(HtmlToken::Eof),
                Some(ch) => Some(HtmlToken::Char(ch)),
            },
            State::ScriptDataLessThanSign => match c {
                Some('/') => {
                    let nb: Vec<char> = Vec::new();
                    self.buf = nb;
                    self.state = State::ScriptDataEndTagOpen;
                    None
                },
                _ => {
                    self.reconsume = true;
                    self.state = State::ScriptData;
                    Some(HtmlToken::Char('<'))
                },
            },
            State::ScriptDataEndTagOpen => match c {
                Some(ch) => {
                    if is_ascii_alphabetic_c(ch) {
                        self.reconsume = true;
                        self.state = State::ScriptDataEndTagName;
                        self.create_tag(false);
                        None
                    } else {
                        self.reconsume = true;
                        self.state = State::ScriptData;
                        Some(HtmlToken::Char('<'))
                    }
                },
                None => {
                    self.reconsume = true;
                    self.state = State::ScriptData;
                    Some(HtmlToken::Char('<'))
                },
            },
            State::ScriptDataEndTagName => match c {
                Some('>') => {
                    self.state = State::ScriptData;
                    let t = self.take_latest_token();
                    Some(t)
                },
                Some(ch) => {
                    if is_ascii_alphabetic_c(ch) {
                        self.buf.push(ch);
                        let lc = to_ascii_lowercase_c(ch);
                        proof {
                            lemma_no_upper_push_tag(self@, lower_char(ch));
                        }
                        self.append_tag_name(lc);
                        None
                    } else {
                        let mut nb: Vec<char> = Vec::new();
                        nb.push('<');
                        nb.push('/');
                        nb.append(&mut self.buf);
                        nb.push(ch);
                        proof {
                            assert(nb@ =~= seq!['<', '/'] + mr.buf + seq![ch]);
                        }
                        self.buf = nb;
                        self.state = State::TemporaryBuffer;
                        None
                    }
                },
                None => {
                    let mut nb: Vec<char> = Vec::new();
                    nb.push('<');
                    nb.push('/');
                    nb.append(&mut self.buf);
                    proof {
                        assert(nb@ =~= seq!['<', '/'] + mr.buf + Seq::<char>::empty());
                    }
                    self.buf = nb;
                    self.state = State::TemporaryBuffer;
                    None
                },
            },
            State::TemporaryBuffer => {
                self.reconsume = true;
                if self.buf.len() == 0 {
                    self.state = State::ScriptData;
                    None
                } else {
                    let ch = self.buf.remove(0);
                    proof {
                        assert(self.buf@ =~= mr.buf.drop_first());
                    }
                    Some(HtmlToken::Char(ch))
                }
            },
        }
    }

    /// One pull: runs the automaton until a token is complete and returns
    /// it, or yields nothing once the input is exhausted. The token and the
    /// successor state are the unique emission that a chain of [`step`]s
    /// produces from the starting state; its tag and attribute names, if
    /// any, carry no ASCII uppercase letter.
    pub fn next(&mut self) -> (r: Option<HtmlToken>)
        requires
            old(self).wf(),
        ensures
            final(self).wf(),
            old(self)@.pos >= old(self)@.input.len() ==> r is None && final(self)@ == old(self)@,
            old(self)@.pos < old(self)@.input.len() ==> match r {
                Some(t) => (exists|n: nat| emits(old(self)@, n, final(self)@, t@)) && token_lower(
                    t@,
                ),
                None => false,
            },
    {
        if self.pos >= self.input.len() {
            return None;
        }
        proof {
            assert(self@.pos < self@.input.len());
        }
        let ghost m0 = self@;
        let ghost mut n: nat = 0nat;
        loop
            invariant
                self.wf(),
                m0 == old(self)@,
                advance(m0, n) == Some(self@),
                m0.pos < m0.input.len(),
                at_end_draining(self@),
            decreases fuel_left(self@), silent_rank(self@),
        {
            let ghost m_pre = self@;
            proof {
                lemma_step_decreases(m_pre);
            }
            let r = self.step_once();
            match r {
                None => {
                    proof {
                        assert(advance(m0, n + 1) == Some(self@));
                        n = n + 1nat;
                    }
                },
                Some(t) => {
                    proof {
                        assert(emits(m0, n, self@, t@));
                    }
                    return Some(t);
                },
            }
        }
    }

    /// Raises the self-closing flag of the in-progress start tag; an end
    /// tag has no such flag, so on one this does nothing. A tag must be in
    /// progress.
    fn set_self_closing_flag(&mut self)
        requires
            old(self)@.latest is Some,
        ensures
            final(self)@ == model_set_self_closing(old(self)@),
            final(self).rep_ok() == old(self).rep_ok(),
    {
        let t = self.latest_token.take();
        match t {
            Some(HtmlToken::StartTag { tag, self_closing: _, attributes }) => {
                self.latest_token = Some(
                    HtmlToken::StartTag { tag, self_closing: true, attributes },
                );
            },
            other => {
                self.latest_token = other;
            },
        }
    }
}

} // verus!
