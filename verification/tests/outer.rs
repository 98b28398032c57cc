use mf66::outer::{eval_plan, EvalView, Plan, Step};

fn view() -> EvalView {
    EvalView {
        open: false,
        capturing: false,
        named: false,
        bracket: false,
        defining_word: false,
        arrow_is_word: false,
        class_operand: false,
        object_operand: false,
    }
}

fn step(v: EvalView, tok: &str) -> Step {
    eval_plan(v, tok).step
}

#[test]
fn interpreting_words_outside_a_definition() {
    let v = view();
    assert_eq!(step(v, "\\"), Step::EndLine);
    assert_eq!(step(v, "("), Step::SkipComment);
    assert_eq!(step(v, ":"), Step::Colon);
    assert_eq!(step(v, ":NONAME"), Step::NoName);
    assert_eq!(step(v, "Value"), Step::Value);
    assert_eq!(step(v, "to"), Step::InterpretTo);
    assert_eq!(step(v, "bye"), Step::Bye);
    assert_eq!(step(v, "2constant"), Step::TwoConstant);
    assert_eq!(step(v, "dup"), Step::Interpret);
    assert_eq!(step(v, "[IF]"), Step::BracketIf);
    assert_eq!(step(v, "s\""), Step::StringLiteral);
    assert_eq!(step(v, ".\""), Step::DotString);
    assert_eq!(step(v, "[']"), Step::Tick);
    // `[` and `literal` only mean something inside a definition
    assert_eq!(step(v, "["), Step::Interpret);
    assert_eq!(step(v, "literal"), Step::Interpret);
    assert_eq!(
        eval_plan(v, "dup"),
        Plan { record_raw: false, forget_receiver: true, step: Step::Interpret }
    );
}

#[test]
fn compiling_words_inside_a_definition() {
    let v = EvalView { open: true, named: true, ..view() };
    assert_eq!(eval_plan(v, "dup"), Plan { record_raw: true, forget_receiver: true, step: Step::Compile });
    assert_eq!(step(v, ";"), Step::FinishColon);
    assert_eq!(step(v, "{:"), Step::OpenLocals);
    assert_eq!(step(v, "TO"), Step::CompileTo);
    assert_eq!(step(v, "["), Step::EnterBracket);
    assert_eq!(step(v, "literal"), Step::Literal);
    assert_eq!(eval_plan(v, "create"), Plan { record_raw: false, forget_receiver: false, step: Step::StartCapture });
    // inside `[ … ]` words are interpreted
    let b = EvalView { bracket: true, ..v };
    assert_eq!(step(b, "dup"), Step::Interpret);
    assert_eq!(step(b, "]"), Step::LeaveBracket);
    // a :noname body records nothing raw and compiles `create` as a word
    let n = EvalView { open: true, ..view() };
    assert_eq!(eval_plan(n, "create"), Plan { record_raw: false, forget_receiver: true, step: Step::Create });
}

#[test]
fn a_captured_defining_word_takes_words_raw_until_its_end() {
    let v = EvalView { open: true, named: true, capturing: true, ..view() };
    assert_eq!(step(v, "does>"), Step::CaptureRaw);
    assert_eq!(step(v, ";"), Step::FinishDefining);
    let d = EvalView { defining_word: true, ..view() };
    assert_eq!(step(d, "konst"), Step::InstantiateDefining);
}

#[test]
fn objects_classes_and_sends() {
    let v = view();
    assert_eq!(eval_plan(v, "->"), Plan { record_raw: false, forget_receiver: false, step: Step::Send });
    let w = EvalView { arrow_is_word: true, ..v };
    assert_eq!(step(w, "->"), Step::Interpret);
    assert_eq!(step(v, ":m"), Step::BeginMethod);
    assert_eq!(step(v, "END-CLASS"), Step::EndClass);
    assert_eq!(step(v, "is-a?"), Step::IsAQ);
    assert_eq!(step(EvalView { class_operand: true, ..v }, "Point"), Step::ClassOperand);
    assert_eq!(step(EvalView { object_operand: true, ..v }, "p1"), Step::ObjectOperand);
}
