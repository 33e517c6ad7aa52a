use crate::crawler::texts_view;
use crate::error::Error;
use vstd::prelude::*;
use vstd::string::StringExecFns;

verus! {

/// What to do with the values that are offered for a choice.
pub enum Selection<T> {
    /// The one value there is: nobody is asked.
    Taken(T),
    /// Ask which of these values it shall be.
    Ask(Vec<T>),
}

/// Takes the one value of a list of one without asking; any other list,
/// the empty one too, goes to the prompt.
pub fn prompt_unless_single<T>(values: Vec<T>) -> (r: Selection<T>)
    ensures
        values@.len() == 1 ==> r == Selection::Taken(values@[0]),
        values@.len() != 1 ==> r == Selection::Ask(values),
{
    if values.len() == 1 {
        let mut values = values;
        Selection::Taken(values.pop().unwrap())
    } else {
        Selection::Ask(values)
    }
}

/// The value that the prompt's answer picks; `SelectionAborted` where the
/// prompt gave no answer or one that is not among the values.
pub fn accept_choice<T>(values: Vec<T>, answer: Option<usize>) -> (r: Result<T, Error>)
    ensures
        r == (match answer {
            Some(i) => if i < values@.len() {
                Ok(values@[i as int])
            } else {
                Err(Error::SelectionAborted)
            },
            None => Err(Error::SelectionAborted),
        }),
{
    match answer {
        Some(i) => {
            if i < values.len() {
                let mut values = values;
                Ok(values.swap_remove(i))
            } else {
                Err(Error::SelectionAborted)
            }
        },
        None => Err(Error::SelectionAborted),
    }
}

/// The steps of one run, in their order.
#[derive(Clone, Copy, Debug, PartialEq, Eq, Structural)]
pub enum Stage {
    Fingerprinting,
    Searching,
    RankingResults,
    SelectingCandidate,
    FetchingDetailPage,
    ResolvingDownload,
    DownloadingArchive,
    ListingMembers,
    SelectingMember,
    ExtractingMember,
    WritingOutput,
    Muxing,
    Done,
}

/// The place of a step in the run.
pub open spec fn stage_number(stage: Stage) -> int {
    match stage {
        Stage::Fingerprinting => 0,
        Stage::Searching => 1,
        Stage::RankingResults => 2,
        Stage::SelectingCandidate => 3,
        Stage::FetchingDetailPage => 4,
        Stage::ResolvingDownload => 5,
        Stage::DownloadingArchive => 6,
        Stage::ListingMembers => 7,
        Stage::SelectingMember => 8,
        Stage::ExtractingMember => 9,
        Stage::WritingOutput => 10,
        Stage::Muxing => 11,
        Stage::Done => 12,
    }
}

/// The step that follows `stage` once it has succeeded. After the output is
/// written, the run muxes only if `mux_accepted`.
pub open spec fn successor(stage: Stage, mux_accepted: bool) -> Stage {
    match stage {
        Stage::Fingerprinting => Stage::Searching,
        Stage::Searching => Stage::RankingResults,
        Stage::RankingResults => Stage::SelectingCandidate,
        Stage::SelectingCandidate => Stage::FetchingDetailPage,
        Stage::FetchingDetailPage => Stage::ResolvingDownload,
        Stage::ResolvingDownload => Stage::DownloadingArchive,
        Stage::DownloadingArchive => Stage::ListingMembers,
        Stage::ListingMembers => Stage::SelectingMember,
        Stage::SelectingMember => Stage::ExtractingMember,
        Stage::ExtractingMember => Stage::WritingOutput,
        Stage::WritingOutput => if mux_accepted {
            Stage::Muxing
        } else {
            Stage::Done
        },
        Stage::Muxing => Stage::Done,
        Stage::Done => Stage::Done,
    }
}

/// The step to take after `stage` has succeeded.
pub fn next_stage(stage: Stage, mux_accepted: bool) -> (next: Stage)
    ensures
        next == successor(stage, mux_accepted),
{
    match stage {
        Stage::Fingerprinting => Stage::Searching,
        Stage::Searching => Stage::RankingResults,
        Stage::RankingResults => Stage::SelectingCandidate,
        Stage::SelectingCandidate => Stage::FetchingDetailPage,
        Stage::FetchingDetailPage => Stage::ResolvingDownload,
        Stage::ResolvingDownload => Stage::DownloadingArchive,
        Stage::DownloadingArchive => Stage::ListingMembers,
        Stage::ListingMembers => Stage::SelectingMember,
        Stage::SelectingMember => Stage::ExtractingMember,
        Stage::ExtractingMember => Stage::WritingOutput,
        Stage::WritingOutput => if mux_accepted {
            Stage::Muxing
        } else {
            Stage::Done
        },
        Stage::Muxing => Stage::Done,
        Stage::Done => Stage::Done,
    }
}

/// A run never goes back: every step but the last is followed by a later
/// one, and muxing is entered only from the written output and only when it
/// was accepted.
pub proof fn lemma_stages_advance(stage: Stage, mux_accepted: bool)
    ensures
        stage != Stage::Done ==> stage_number(successor(stage, mux_accepted)) > stage_number(
            stage,
        ),
        successor(stage, mux_accepted) == Stage::Muxing ==> stage == Stage::WritingOutput
            && mux_accepted,
{
}

/// What the run makes of the mux tool's exit code: success for 0,
/// `MuxFailed` for every other code and for a tool that a signal ended.
pub open spec fn mux_result(exit_code: Option<i32>) -> Result<(), Error> {
    if exit_code == Some(0i32) {
        Ok(())
    } else {
        Err(Error::MuxFailed)
    }
}

/// Judges the mux tool by its exit code.
pub fn mux_outcome(exit_code: Option<i32>) -> (r: Result<(), Error>)
    ensures
        r == mux_result(exit_code),
{
    match exit_code {
        Some(code) => if code == 0 {
            Ok(())
        } else {
            Err(Error::MuxFailed)
        },
        None => Err(Error::MuxFailed),
    }
}

/// Where a run stands once `stage` has ended: at the next step, or at its
/// end with the failure of the step. Nothing is tried again or undone.
pub open spec fn after(stage: Stage, outcome: Result<(), Error>, mux_accepted: bool) -> Result<
    Stage,
    Error,
> {
    match outcome {
        Ok(_) => Ok(successor(stage, mux_accepted)),
        Err(e) => Err(e),
    }
}

/// Goes on to the next step, or ends the run with the failure of this one.
pub fn advance(stage: Stage, outcome: Result<(), Error>, mux_accepted: bool) -> (r: Result<
    Stage,
    Error,
>)
    ensures
        r == after(stage, outcome, mux_accepted),
{
    match outcome {
        Ok(_) => Ok(next_stage(stage, mux_accepted)),
        Err(e) => Err(e),
    }
}

/// A mux tool that does not end with exit code 0 fails the run with
/// `MuxFailed`, although the step that wrote the subtitle lies behind it.
pub proof fn lemma_failed_mux_fails_the_run(exit_code: Option<i32>, mux_accepted: bool)
    requires
        exit_code != Some(0i32),
    ensures
        after(Stage::Muxing, mux_result(exit_code), mux_accepted) == Err::<Stage, Error>(
            Error::MuxFailed,
        ),
        stage_number(Stage::WritingOutput) < stage_number(Stage::Muxing),
{
}

/// The arguments of the mux tool: both inputs, every stream of both mapped
/// and copied, the subtitle stream recoded as text, its language tagged,
/// and the output.
pub open spec fn mux_command(
    movie: Seq<char>,
    subtitle: Seq<char>,
    language: Seq<char>,
    output: Seq<char>,
) -> Seq<Seq<char>> {
    seq![
        "-i"@,
        movie,
        "-i"@,
        subtitle,
        "-map"@,
        "0"@,
        "-map"@,
        "1"@,
        "-c"@,
        "copy"@,
        "-c:s"@,
        "mov_text"@,
        "-metadata:s:s:1"@,
        "language="@ + language,
        output,
    ]
}

/// Puts the arguments of the mux tool together.
pub fn mux_arguments(movie: &str, subtitle: &str, language: &str, output: &str) -> (args: Vec<
    String,
>)
    ensures
        texts_view(args@) == mux_command(movie@, subtitle@, language@, output@),
{
    let mut tag: String = String::from_str("language=");
    tag.append(language);
    let mut args: Vec<String> = Vec::new();
    args.push(String::from_str("-i"));
    args.push(String::from_str(movie));
    args.push(String::from_str("-i"));
    args.push(String::from_str(subtitle));
    args.push(String::from_str("-map"));
    args.push(String::from_str("0"));
    args.push(String::from_str("-map"));
    args.push(String::from_str("1"));
    args.push(String::from_str("-c"));
    args.push(String::from_str("copy"));
    args.push(String::from_str("-c:s"));
    args.push(String::from_str("mov_text"));
    args.push(String::from_str("-metadata:s:s:1"));
    args.push(tag);
    args.push(String::from_str(output));
    assert(texts_view(args@) =~= mux_command(movie@, subtitle@, language@, output@));
    args
}

} // verus!
