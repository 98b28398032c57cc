//! The outer interpreter's decision for each word it reads: what the word does,
//! given what the interpreter knows at that moment (a definition open or not,
//! a defining word being captured, `[ … ]` interpretation, and what the word
//! names). The host performs the step and reads on.
use vstd::prelude::*;
use crate::interp::{same_word, word_is};

verus! {

/// What the outer interpreter knows when it reads a word.
#[derive(Clone, Copy, PartialEq, Eq, Debug, Structural)]
pub struct EvalView {
    /// A colon definition is open.
    pub open: bool,
    /// The open definition is a defining word whose body is captured raw.
    pub capturing: bool,
    /// The open definition is named (not `:noname`, not a method).
    pub named: bool,
    /// `[ … ]` interpretation inside a definition.
    pub bracket: bool,
    /// The word (lower-cased) is a registered defining word.
    pub defining_word: bool,
    /// The word is `->` and `->` has been defined as an ordinary word.
    pub arrow_is_word: bool,
    /// The word names a class.
    pub class_operand: bool,
    /// The word names an object.
    pub object_operand: bool,
}

/// What the word read does.
#[derive(Clone, Copy, PartialEq, Eq, Debug, Structural)]
pub enum Step {
    /// `\`: the rest of the line is a comment.
    EndLine,
    /// `(`: skip to the word that ends with `)`.
    SkipComment,
    /// `;` ends a captured defining word.
    FinishDefining,
    /// A word of a captured defining word's body.
    CaptureRaw,
    /// `create` in a named definition: capture its body raw from here.
    StartCapture,
    /// A registered defining word defines the next name.
    InstantiateDefining,
    BracketIf,
    BracketElse,
    BracketThen,
    /// `[` inside a definition.
    EnterBracket,
    /// `]`.
    LeaveBracket,
    /// `literal` inside a definition.
    Literal,
    /// `'` or `[']`.
    Tick,
    /// `s" …"`.
    StringLiteral,
    /// `." …"`.
    DotString,
    /// `-> selector`.
    Send,
    BeginMethod,
    EndMethod,
    Ivar,
    EndClass,
    Class,
    Subclass,
    New,
    Create,
    Defined,
    ObjectQ,
    ClassQ,
    IsAQ,
    DotClass,
    /// A class name: its struct address.
    ClassOperand,
    /// An object name: its address, and its class becomes the receiver's.
    ObjectOperand,
    /// `;` ends the open colon definition.
    FinishColon,
    /// `{:` declares locals.
    OpenLocals,
    /// `to` inside a definition.
    CompileTo,
    /// Any other word inside a definition.
    Compile,
    Bye,
    Value,
    /// `to` outside a definition.
    InterpretTo,
    Colon,
    NoName,
    TwoConstant,
    /// Any other word outside a definition.
    Interpret,
}

/// The decision for one word: whether it is first recorded in the open named
/// definition's raw text, whether the receiver known for early binding is
/// forgotten, and the step.
#[derive(Clone, Copy, PartialEq, Eq, Debug, Structural)]
pub struct Plan {
    pub record_raw: bool,
    pub forget_receiver: bool,
    pub step: Step,
}

/// The step for a word past the raw-recording point, before `->`.
pub open spec fn early_step(v: EvalView, t: Seq<char>) -> Option<Step> {
    if !v.open && v.defining_word {
        Some(Step::InstantiateDefining)
    } else if same_word(t, "[if]"@) {
        Some(Step::BracketIf)
    } else if same_word(t, "[else]"@) {
        Some(Step::BracketElse)
    } else if same_word(t, "[then]"@) {
        Some(Step::BracketThen)
    } else if same_word(t, "["@) && v.open {
        Some(Step::EnterBracket)
    } else if same_word(t, "]"@) {
        Some(Step::LeaveBracket)
    } else if same_word(t, "literal"@) && v.open {
        Some(Step::Literal)
    } else if same_word(t, "'"@) || same_word(t, "[']"@) {
        Some(Step::Tick)
    } else if same_word(t, "s\""@) {
        Some(Step::StringLiteral)
    } else if same_word(t, ".\""@) {
        Some(Step::DotString)
    } else {
        None
    }
}

/// The parsing words of classes and objects, valid in both states.
pub open spec fn oop_step(t: Seq<char>) -> Option<Step> {
    if same_word(t, ":m"@) {
        Some(Step::BeginMethod)
    } else if same_word(t, ";m"@) {
        Some(Step::EndMethod)
    } else if same_word(t, "ivar:"@) {
        Some(Step::Ivar)
    } else if same_word(t, "end-class"@) {
        Some(Step::EndClass)
    } else if same_word(t, "class"@) {
        Some(Step::Class)
    } else if same_word(t, "subclass"@) {
        Some(Step::Subclass)
    } else if same_word(t, "new"@) {
        Some(Step::New)
    } else if same_word(t, "create"@) {
        Some(Step::Create)
    } else if same_word(t, "[defined]"@) {
        Some(Step::Defined)
    } else if same_word(t, "object?"@) {
        Some(Step::ObjectQ)
    } else if same_word(t, "class?"@) {
        Some(Step::ClassQ)
    } else if same_word(t, "is-a?"@) {
        Some(Step::IsAQ)
    } else if same_word(t, ".class"@) {
        Some(Step::DotClass)
    } else {
        None
    }
}

/// The step for a word that is none of the above: compiled inside a
/// definition, else interpreted, with the words each state handles itself.
pub open spec fn state_step(v: EvalView, t: Seq<char>) -> Step {
    if v.open && !v.bracket {
        if same_word(t, ";"@) {
            Step::FinishColon
        } else if same_word(t, "{:"@) {
            Step::OpenLocals
        } else if same_word(t, "to"@) {
            Step::CompileTo
        } else {
            Step::Compile
        }
    } else if same_word(t, "bye"@) {
        Step::Bye
    } else if same_word(t, "value"@) {
        Step::Value
    } else if same_word(t, "to"@) && !v.open {
        Step::InterpretTo
    } else if same_word(t, ":"@) {
        Step::Colon
    } else if same_word(t, ":noname"@) {
        Step::NoName
    } else if same_word(t, "2constant"@) {
        Step::TwoConstant
    } else {
        Step::Interpret
    }
}

/// The step for a word from the `->` check on.
pub open spec fn late_step(v: EvalView, t: Seq<char>) -> Step {
    if same_word(t, "->"@) && !v.arrow_is_word {
        Step::Send
    } else if oop_step(t) is Some {
        oop_step(t)->Some_0
    } else if v.class_operand {
        Step::ClassOperand
    } else if v.object_operand {
        Step::ObjectOperand
    } else {
        state_step(v, t)
    }
}

/// The outer interpreter's decision for word `t` (letter case aside, but for
/// the two comment words, which are taken as written).
pub open spec fn plan_of(v: EvalView, t: Seq<char>) -> Plan {
    if t == "\\"@ {
        Plan { record_raw: false, forget_receiver: false, step: Step::EndLine }
    } else if t == "("@ {
        Plan { record_raw: false, forget_receiver: false, step: Step::SkipComment }
    } else if v.open && v.capturing {
        Plan {
            record_raw: false,
            forget_receiver: false,
            step: if same_word(t, ";"@) {
                Step::FinishDefining
            } else {
                Step::CaptureRaw
            },
        }
    } else if v.open && v.named && same_word(t, "create"@) {
        Plan { record_raw: false, forget_receiver: false, step: Step::StartCapture }
    } else {
        let raw = v.open && v.named;
        match early_step(v, t) {
            Some(s) => Plan { record_raw: raw, forget_receiver: false, step: s },
            None => Plan {
                record_raw: raw,
                forget_receiver: !same_word(t, "->"@),
                step: late_step(v, t),
            },
        }
    }
}

fn early(v: EvalView, w: &String) -> (r: Option<Step>)
    ensures
        r == early_step(v, w@),
{
    if !v.open && v.defining_word {
        Some(Step::InstantiateDefining)
    } else if word_is(w, "[if]") {
        Some(Step::BracketIf)
    } else if word_is(w, "[else]") {
        Some(Step::BracketElse)
    } else if word_is(w, "[then]") {
        Some(Step::BracketThen)
    } else if word_is(w, "[") && v.open {
        Some(Step::EnterBracket)
    } else if word_is(w, "]") {
        Some(Step::LeaveBracket)
    } else if word_is(w, "literal") && v.open {
        Some(Step::Literal)
    } else if word_is(w, "'") || word_is(w, "[']") {
        Some(Step::Tick)
    } else if word_is(w, "s\"") {
        Some(Step::StringLiteral)
    } else if word_is(w, ".\"") {
        Some(Step::DotString)
    } else {
        None
    }
}

fn oop_word(w: &String) -> (r: Option<Step>)
    ensures
        r == oop_step(w@),
{
    if word_is(w, ":m") {
        Some(Step::BeginMethod)
    } else if word_is(w, ";m") {
        Some(Step::EndMethod)
    } else if word_is(w, "ivar:") {
        Some(Step::Ivar)
    } else if word_is(w, "end-class") {
        Some(Step::EndClass)
    } else if word_is(w, "class") {
        Some(Step::Class)
    } else if word_is(w, "subclass") {
        Some(Step::Subclass)
    } else if word_is(w, "new") {
        Some(Step::New)
    } else if word_is(w, "create") {
        Some(Step::Create)
    } else if word_is(w, "[defined]") {
        Some(Step::Defined)
    } else if word_is(w, "object?") {
        Some(Step::ObjectQ)
    } else if word_is(w, "class?") {
        Some(Step::ClassQ)
    } else if word_is(w, "is-a?") {
        Some(Step::IsAQ)
    } else if word_is(w, ".class") {
        Some(Step::DotClass)
    } else {
        None
    }
}

fn in_state(v: EvalView, w: &String) -> (r: Step)
    ensures
        r == state_step(v, w@),
{
    if v.open && !v.bracket {
        if word_is(w, ";") {
            Step::FinishColon
        } else if word_is(w, "{:") {
            Step::OpenLocals
        } else if word_is(w, "to") {
            Step::CompileTo
        } else {
            Step::Compile
        }
    } else if word_is(w, "bye") {
        Step::Bye
    } else if word_is(w, "value") {
        Step::Value
    } else if word_is(w, "to") && !v.open {
        Step::InterpretTo
    } else if word_is(w, ":") {
        Step::Colon
    } else if word_is(w, ":noname") {
        Step::NoName
    } else if word_is(w, "2constant") {
        Step::TwoConstant
    } else {
        Step::Interpret
    }
}

/// Decide what word `tok` does, given what the interpreter knows.
pub fn eval_plan(v: EvalView, tok: &str) -> (p: Plan)
    ensures
        p == plan_of(v, tok@),
{
    let w = tok.to_owned();
    let cs = crate::text::chars_of(tok);
    assert(cs@.subrange(0, cs@.len() as int) =~= cs@);
    if crate::text::span_is(cs.as_slice(), 0, cs.len(), "\\") {
        return Plan { record_raw: false, forget_receiver: false, step: Step::EndLine };
    }
    if crate::text::span_is(cs.as_slice(), 0, cs.len(), "(") {
        return Plan { record_raw: false, forget_receiver: false, step: Step::SkipComment };
    }
    if v.open && v.capturing {
        let step = if word_is(&w, ";") {
            Step::FinishDefining
        } else {
            Step::CaptureRaw
        };
        return Plan { record_raw: false, forget_receiver: false, step };
    }
    if v.open && v.named && word_is(&w, "create") {
        return Plan { record_raw: false, forget_receiver: false, step: Step::StartCapture };
    }
    let raw = v.open && v.named;
    match early(v, &w) {
        Some(s) => Plan { record_raw: raw, forget_receiver: false, step: s },
        None => {
            let arrow = word_is(&w, "->");
            let step = if arrow && !v.arrow_is_word {
                Step::Send
            } else {
                match oop_word(&w) {
                    Some(s) => s,
                    None => if v.class_operand {
                        Step::ClassOperand
                    } else if v.object_operand {
                        Step::ObjectOperand
                    } else {
                        in_state(v, &w)
                    },
                }
            };
            Plan { record_raw: raw, forget_receiver: !arrow, step }
        },
    }
}

/// `'` and `[']` take the next word's execution token: outside a captured
/// defining word's body and unless `'` was itself registered as a defining
/// word, reading either one is the tick step, in both states.
pub proof fn lemma_tick_takes_the_next_xt(v: EvalView)
    requires
        !(v.open && v.capturing),
        !(!v.open && v.defining_word),
    ensures
        plan_of(v, "'"@).step == Step::Tick,
        plan_of(v, "[']"@).step == Step::Tick,
        !plan_of(v, "'"@).forget_receiver,
{
    reveal_strlit("'");
    reveal_strlit("[']");
    reveal_strlit("\\");
    reveal_strlit("(");
    reveal_strlit("create");
    reveal_strlit("[if]");
    reveal_strlit("[else]");
    reveal_strlit("[then]");
    reveal_strlit("[");
    reveal_strlit("]");
    reveal_strlit("literal");
    assert(!same_word("'"@, "["@)) by {
        assert(crate::interp::lower_code("'"@[0]) != "["@[0] as u32);
    }
    assert(!same_word("'"@, "]"@)) by {
        assert(crate::interp::lower_code("'"@[0]) != "]"@[0] as u32);
    }
    assert(same_word("'"@, "'"@));
    assert(same_word("[']"@, "[']"@)) by {
        assert(forall|k: int| 0 <= k < 3 ==> crate::interp::lower_code("[']"@[k]) == "[']"@[k] as u32);
    }
    assert(!same_word("[']"@, "[if]"@));
    assert(!same_word("[']"@, "[else]"@));
    assert(!same_word("[']"@, "[then]"@));
    assert(!same_word("[']"@, "create"@));
    assert(!same_word("[']"@, "literal"@));
}

} // verus!
