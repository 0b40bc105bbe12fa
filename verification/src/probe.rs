//! The order in which a name is tried to find the language that it stands for.
use crate::prompt_code;
use crate::text;
use vstd::prelude::*;

verus! {

/// What is asked about: the name itself or a file of that ending, by its path alone or
/// by a small file that was made for it.
#[derive(Debug, Clone, Copy, PartialEq, Eq, Structural)]
pub enum Probe {
    Name,
    NameFile,
    Ending,
    EndingFile,
}

/// What came back: a language, nothing, or an error.
#[derive(Debug)]
pub enum ProbeAnswer {
    Language(String),
    Unknown,
    Failed,
}

/// What an answer holds.
pub enum AnswerView {
    Language(Seq<char>),
    Unknown,
    Failed,
}

impl View for ProbeAnswer {
    type V = AnswerView;

    open spec fn view(&self) -> AnswerView {
        match self {
            ProbeAnswer::Language(l) => AnswerView::Language(l@),
            ProbeAnswer::Unknown => AnswerView::Unknown,
            ProbeAnswer::Failed => AnswerView::Failed,
        }
    }
}

/// What comes next: to ask about a path, to ask about a file that is made with an
/// ending, or to stop with the language, if one was found.
#[derive(Debug)]
pub enum ProbeStep {
    Ask { probe: Probe, path: String },
    Make { probe: Probe, ending: String },
    Done(Option<String>),
}

/// What a step holds.
pub enum StepView {
    Ask { probe: Probe, path: Seq<char> },
    Make { probe: Probe, ending: Seq<char> },
    Done(Option<Seq<char>>),
}

impl View for ProbeStep {
    type V = StepView;

    open spec fn view(&self) -> StepView {
        match self {
            ProbeStep::Ask { probe, path } => StepView::Ask { probe: *probe, path: path@ },
            ProbeStep::Make { probe, ending } => StepView::Make { probe: *probe, ending: ending@ },
            ProbeStep::Done(l) => StepView::Done(text::opt_view(*l)),
        }
    }
}

/// What was asked last and what came back.
pub open spec fn last_view(last: Option<(Probe, ProbeAnswer)>) -> Option<(Probe, AnswerView)> {
    match last {
        Some((p, a)) => Some((p, a@)),
        None => None,
    }
}

/// The path of a file of the ending `raw`.
pub open spec fn path_with_ending(raw: Seq<char>) -> Seq<char> {
    "file."@ + raw
}

/// The ending of the file that is made for a path, in lower case; empty where the
/// path has none.
pub open spec fn made_ending(path: Seq<char>) -> Seq<char> {
    text::lowered(prompt_code::ending_of(path))
}

/// To ask about a file of the ending `raw`.
pub open spec fn ask_ending(raw: Seq<char>) -> StepView {
    StepView::Ask { probe: Probe::Ending, path: path_with_ending(raw) }
}

/// What comes after what was asked last: the name itself, and behind it a file of that
/// ending, until a language is found. Where asking about a path failed, a file of its
/// ending is made and asked about, if it has one.
pub open spec fn probe_after(raw: Seq<char>, last: Option<(Probe, AnswerView)>) -> StepView {
    match last {
        None => if raw.len() == 0 {
            StepView::Done(None)
        } else {
            StepView::Ask { probe: Probe::Name, path: raw }
        },
        Some((_, AnswerView::Language(l))) => StepView::Done(Some(l)),
        Some((Probe::Name, AnswerView::Failed)) => if made_ending(raw).len() > 0 {
            StepView::Make { probe: Probe::NameFile, ending: made_ending(raw) }
        } else {
            ask_ending(raw)
        },
        Some((Probe::Name, _)) => ask_ending(raw),
        Some((Probe::NameFile, _)) => ask_ending(raw),
        Some((Probe::Ending, AnswerView::Failed)) => if made_ending(path_with_ending(raw)).len()
            > 0 {
            StepView::Make {
                probe: Probe::EndingFile,
                ending: made_ending(path_with_ending(raw)),
            }
        } else {
            StepView::Done(None)
        },
        Some((Probe::Ending, _)) => StepView::Done(None),
        Some((Probe::EndingFile, _)) => StepView::Done(None),
    }
}

/// The path of a file of the ending `raw`.
fn ending_path(raw: &str) -> (out: String)
    ensures
        out@ == path_with_ending(raw@),
{
    let mut out = String::new();
    out.append("file.");
    out.append(raw);
    assert(out@ =~= path_with_ending(raw@));
    out
}

/// The ending of the file that is made for a path, where it has one.
fn file_ending(path: &str) -> (r: Option<String>)
    ensures
        match r {
            Some(e) => e@ == made_ending(path@) && e@.len() > 0,
            None => made_ending(path@).len() == 0,
        },
{
    let ending = prompt_code::path_ending(path);
    let low = text::lower(ending.as_str());
    if text::chars(low.as_str()).len() > 0 {
        Some(low)
    } else {
        None
    }
}

/// What comes after what was asked last about the name `raw`.
pub fn next_probe(raw: &str, last: Option<(Probe, ProbeAnswer)>) -> (r: ProbeStep)
    ensures
        r@ == probe_after(raw@, last_view(last)),
{
    let (probe, answer) = match last {
        Some(l) => l,
        None => {
            if text::chars(raw).len() == 0 {
                return ProbeStep::Done(None);
            }
            return ProbeStep::Ask { probe: Probe::Name, path: raw.to_string() };
        },
    };
    let failed = match answer {
        ProbeAnswer::Language(l) => {
            return ProbeStep::Done(Some(l));
        },
        ProbeAnswer::Unknown => false,
        ProbeAnswer::Failed => true,
    };
    let behind = ending_path(raw);
    match probe {
        Probe::Name => {
            if failed {
                match file_ending(raw) {
                    Some(ending) => {
                        return ProbeStep::Make { probe: Probe::NameFile, ending };
                    },
                    None => {},
                }
            }
            ProbeStep::Ask { probe: Probe::Ending, path: behind }
        },
        Probe::NameFile => ProbeStep::Ask { probe: Probe::Ending, path: behind },
        Probe::Ending => {
            if failed {
                match file_ending(behind.as_str()) {
                    Some(ending) => {
                        return ProbeStep::Make { probe: Probe::EndingFile, ending };
                    },
                    None => {},
                }
            }
            ProbeStep::Done(None)
        },
        Probe::EndingFile => ProbeStep::Done(None),
    }
}

/// How many questions there are up to this one.
pub open spec fn rank(p: Probe) -> nat {
    match p {
        Probe::Name => 1,
        Probe::NameFile => 2,
        Probe::Ending => 3,
        Probe::EndingFile => 4,
    }
}

/// The first language that is found is taken, and no question is asked twice: each
/// comes behind the one before it, so that four questions are the most.
pub proof fn law_probing_ends(raw: Seq<char>, probe: Probe, answer: AnswerView)
    ensures
        answer matches AnswerView::Language(l) ==> probe_after(raw, Some((probe, answer)))
            == StepView::Done(Some(l)),
        match probe_after(raw, Some((probe, answer))) {
            StepView::Ask { probe: next, .. } => rank(probe) < rank(next) <= 4,
            StepView::Make { probe: next, .. } => rank(probe) < rank(next) <= 4,
            StepView::Done(l) => l is Some ==> answer is Language,
        },
{
}

} // verus!
