//! Asking a person at a terminal.
use vstd::prelude::*;
use crate::approval::{Approver, Decision, EscalationRequest};
use crate::sandbox_policy::SandboxMode;
use crate::text::{
    concat5, debug_text, lower_case_changes_capitals_only, lowered, quoted, same_text, to_lower,
    trim, trimmed, trimming_takes_white_ends_only,
};

verus! {

broadcast use vstd::string::group_string_axioms;

/// Where answers come from.
pub trait LineInput {
    /// The next line, or nothing at the end of the input. The error is given as its
    /// message.
    fn read_line(&self) -> Result<Option<String>, String>;
}

/// Where prompts go.
pub trait PromptOutput {
    fn write_all(&self, text: &str) -> Result<(), String>;

    fn flush(&self) -> Result<(), String>;
}

/// The prompt for a request.
pub open spec fn prompt_of(mode: SandboxMode, justification: Seq<char>) -> Seq<char> {
    "Approval requested\n  sandbox: "@ + mode.name() + "\n  reason: "@ + debug_text(justification)
        + "\nApprove? [y/N]: "@
}

pub fn approval_prompt(request: &EscalationRequest) -> (r: String)
    ensures
        r@ == prompt_of(request.requested_mode, request.justification@),
{
    concat5(
        "Approval requested\n  sandbox: ",
        request.requested_mode.label(),
        "\n  reason: ",
        &quoted(&request.justification),
        "\nApprove? [y/N]: ",
    )
}

/// The only answers that approve are `y` and `yes`, in any case and with any space
/// around them.
pub open spec fn approves(answer: Seq<char>) -> bool {
    lowered(trimmed(answer)) == "y"@ || lowered(trimmed(answer)) == "yes"@
}

/// The decision for what was read. The end of the input and a failure to read are
/// refusals.
pub open spec fn verdict(answer: Result<Option<Seq<char>>, ()>) -> Decision {
    match answer {
        Ok(Some(line)) => if approves(line) {
            Decision::Approved
        } else {
            Decision::Rejected
        },
        _ => Decision::Rejected,
    }
}

pub open spec fn answer_view(answer: Result<Option<String>, String>) -> Result<
    Option<Seq<char>>,
    (),
> {
    match answer {
        Ok(Some(line)) => Ok(Some(line@)),
        Ok(None) => Ok(None),
        Err(_) => Err(()),
    }
}

pub fn terminal_verdict(answer: &Result<Option<String>, String>) -> (r: Decision)
    ensures
        r == verdict(answer_view(*answer)),
{
    match answer {
        Ok(Some(line)) => {
            let word = to_lower(&trim(line));
            if same_text(&word, "y") || same_text(&word, "yes") {
                Decision::Approved
            } else {
                Decision::Rejected
            }
        },
        Ok(None) => Decision::Rejected,
        Err(_) => Decision::Rejected,
    }
}

/// The prompt for a request was written and flushed without an error.
pub open spec fn prompted<W: PromptOutput>(output: &W, request: EscalationRequest) -> bool {
    &&& exists|prompt: &str, written: Result<(), String>| #[trigger]
        call_ensures(W::write_all, (output, prompt), written) && written is Ok && prompt@
            == prompt_of(request.requested_mode, request.justification@)
    &&& exists|flushed: Result<(), String>| #[trigger]
        call_ensures(W::flush, (output,), flushed) && flushed is Ok
}

/// A line was asked for, and what came back stands for the decision.
pub open spec fn decided_by_line<R: LineInput>(input: &R, d: Decision) -> bool {
    exists|answer: Result<Option<String>, String>| #[trigger]
        call_ensures(R::read_line, (input,), answer) && verdict(answer_view(answer)) == d
}

/// The prompt for a request could not be written, or was written and could not be flushed.
pub open spec fn not_prompted<W: PromptOutput>(output: &W, request: EscalationRequest) -> bool {
    exists|prompt: &str, written: Result<(), String>|
        {
            &&& #[trigger] call_ensures(W::write_all, (output, prompt), written)
            &&& prompt@ == prompt_of(request.requested_mode, request.justification@)
            &&& written is Ok ==> exists|flushed: Result<(), String>| #[trigger]
                call_ensures(W::flush, (output,), flushed) && flushed is Err
        }
}

/// Takes decisions from a terminal. Only an explicit yes approves.
pub struct TerminalApprover<R, W> {
    reader: R,
    writer: W,
}

impl<R, W> TerminalApprover<R, W> {
    pub closed spec fn input(&self) -> R {
        self.reader
    }

    pub closed spec fn output(&self) -> W {
        self.writer
    }

    pub fn new(reader: R, writer: W) -> (r: TerminalApprover<R, W>)
        ensures
            r.input() == reader,
            r.output() == writer,
    {
        TerminalApprover { reader, writer }
    }
}

impl<R: LineInput, W: PromptOutput> Approver for TerminalApprover<R, W> {
    /// Shows the prompt, and only where that went well reads one line. The request is
    /// approved only for a line that was read and says yes.
    fn decide(&self, request: &EscalationRequest) -> (r: Decision)
        ensures
            r == Decision::Approved ==> prompted(&self.output(), *request) && decided_by_line(
                &self.input(),
                Decision::Approved,
            ),
            r == Decision::Rejected ==> {
                ||| prompted(&self.output(), *request) && decided_by_line(
                    &self.input(),
                    Decision::Rejected,
                )
                ||| not_prompted(&self.output(), *request)
            },
    {
        let prompt = approval_prompt(request);
        let text = prompt.as_str();
        let written = self.writer.write_all(text);
        assert(call_ensures(W::write_all, (&self.output(), text), written));
        if written.is_err() {
            return Decision::Rejected;
        }
        let flushed = self.writer.flush();
        assert(call_ensures(W::flush, (&self.output(),), flushed));
        if flushed.is_err() {
            return Decision::Rejected;
        }
        let answer = self.reader.read_line();
        assert(call_ensures(R::read_line, (&self.input(),), answer));
        let r = terminal_verdict(&answer);
        assert(decided_by_line(&self.input(), r));
        r
    }
}

/// An approval takes an explicit yes: nothing else that a terminal can give approves.
pub proof fn only_an_explicit_yes_approves(answer: Result<Option<Seq<char>>, ()>)
    ensures
        verdict(answer) == Decision::Approved <==> (answer matches Ok(Some(line))
            && approves(line)),
{
}

/// An approval is asked for with the mode and the reason, so that both are seen.
pub proof fn what_a_prompt_shows(mode: SandboxMode, reason: Seq<char>)
    ensures
        prompt_of(mode, reason) == "Approval requested\n  sandbox: "@ + mode.name()
            + "\n  reason: "@ + debug_text(reason) + "\nApprove? [y/N]: "@,
        verdict(Err(())) == Decision::Rejected,
        verdict(Ok(None)) == Decision::Rejected,
        approves("y"@),
        approves("yes"@),
        !approves("n"@),
        !approves(""@),
{
    reveal_strlit("y");
    reveal_strlit("yes");
    reveal_strlit("n");
    reveal_strlit("");
    lemma_plain_answer("y"@);
    lemma_plain_answer("yes"@);
    lemma_plain_answer("n"@);
    lemma_plain_answer(""@);
    assert("n"@[0] == 'n' && "y"@[0] == 'y');
    assert("yes"@.len() == 3);
}

proof fn lemma_plain_answer(s: Seq<char>)
    requires
        forall|i: int| 0 <= i < s.len() ==> 'a' <= #[trigger] s[i] <= 'z',
    ensures
        lowered(trimmed(s)) == s,
{
    trimming_takes_white_ends_only(s);
    if s.len() > 0 {
        assert('a' <= s[0] <= 'z');
        assert('a' <= s[s.len() - 1] <= 'z');
    }
    assert(trimmed(s) =~= s);
    assert forall|i: int| 0 <= i < s.len() implies lowered(s)[i] == s[i] by {
        lower_case_changes_capitals_only(s, i);
    }
    assert(lowered(s) =~= s);
}

} // verus!
