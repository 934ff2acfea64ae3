//! The decision on one line: whether it is reported, and in which pieces.

use crate::config::{Config, Options};
use crate::content::{Content, Report};
use crate::slicing::{
    cut, cut_line, is_sliceable, lemma_bytes_hold_text, lemma_cut_rebuilds_line,
    lemma_first_occurrence_in_text, lemma_occurrence_is_sliceable, sliceable,
};
use crate::substring::{
    contains, find, first_occurrence, is_first_occurrence, lemma_first_occurrence_exists,
};
use crate::text::{lemma_flatten_three, texts};
use vstd::prelude::*;
use vstd::utf8::*;

verus! {

/// Why a line could not be evaluated.
#[derive(Debug, Clone, Copy, PartialEq, Eq)]
pub enum MatchError {
    /// The pattern was found in the lower-cased line, but the bytes at that
    /// place of the line itself cannot be cut out: they reach past its end,
    /// or they begin or end inside a character.
    Misaligned,
}

/// The lower-cased form of a text.
pub uninterp spec fn lowercase_of(text: Seq<char>) -> Seq<char>;

/// `str::to_lowercase` of std. The contract only names its result: the
/// Unicode lower-casing of a text depends on nothing but the text.
#[verifier::external_body]
fn lowercase(text: &str) -> (lowered: String)
    ensures
        lowered@ == lowercase_of(text@),
{
    text.to_lowercase()
}

/// The form in which a text is compared: lower-cased in a case-insensitive
/// search, else as it stands.
pub open spec fn folded(text: Seq<char>, case_insensitive: bool) -> Seq<char> {
    if case_insensitive {
        lowercase_of(text)
    } else {
        text
    }
}

/// The report of a line with the given pieces.
pub open spec fn report_of(line_number: nat, file_path: Seq<char>, segments: Seq<Seq<char>>) -> Report {
    Report { line_number: Some(line_number), segments, file_path: Some(file_path) }
}

/// The decision on `line`, where `haystack` and `needle` are the forms in
/// which the line and the pattern are compared.
///
/// An inverted search reports the whole line where `needle` does not occur in
/// `haystack`. Otherwise the line is reported where `needle` occurs, cut at
/// the byte offset of the leftmost occurrence in `haystack` and as many bytes
/// further as `pattern` has.
pub open spec fn evaluation(
    line: Seq<char>,
    line_number: nat,
    file_path: Seq<char>,
    pattern: Seq<char>,
    invert: bool,
    haystack: Seq<char>,
    needle: Seq<char>,
) -> Result<Option<Report>, MatchError> {
    let found = first_occurrence(encode_utf8(haystack), encode_utf8(needle));
    if invert {
        if found is None {
            Ok(Some(report_of(line_number, file_path, seq![line])))
        } else {
            Ok(None)
        }
    } else {
        match found {
            None => Ok(None),
            Some(at) => {
                let len = encode_utf8(pattern).len() as int;
                if sliceable(line, at, len) {
                    Ok(Some(report_of(line_number, file_path, cut(line, at, len))))
                } else {
                    Err(MatchError::Misaligned)
                }
            },
        }
    }
}

/// What an outcome of the matcher stands for.
pub open spec fn outcome_view(outcome: Result<Option<Content>, MatchError>) -> Result<
    Option<Report>,
    MatchError,
> {
    match outcome {
        Ok(Some(content)) => Ok(Some(content@)),
        Ok(None) => Ok(None),
        Err(error) => Err(error),
    }
}

/// The decision on `line` under `options`: `evaluation` on the line and the
/// pattern, each compared in the form that the options ask for.
pub open spec fn decision(
    line: Seq<char>,
    line_number: nat,
    file_path: Seq<char>,
    options: Options,
) -> Result<Option<Report>, MatchError> {
    evaluation(
        line,
        line_number,
        file_path,
        options.pattern,
        options.invert,
        folded(line, options.case_insensitive),
        folded(options.pattern, options.case_insensitive),
    )
}

/// Decides on `line`, given the forms in which the line and the pattern are
/// compared.
pub fn evaluate_with(
    line: &str,
    line_number: usize,
    file_path: &str,
    config: &Config,
    haystack: &str,
    needle: &str,
) -> (outcome: Result<Option<Content>, MatchError>)
    ensures
        outcome_view(outcome) == evaluation(
            line@,
            line_number as nat,
            file_path@,
            config.search_term@,
            config.invert,
            haystack@,
            needle@,
        ),
{
    let found = find(haystack.as_bytes(), needle.as_bytes());
    if config.invert {
        match found {
            Some(_) => Ok(None),
            None => {
                let mut whole: Vec<String> = Vec::new();
                whole.push(line.to_owned());
                assert(texts(whole@) =~= seq![line@]);
                Ok(Some(Content::new(Some(line_number), whole, Some(file_path.to_owned()))))
            },
        }
    } else {
        match found {
            None => Ok(None),
            Some(at) => {
                let len: usize = config.search_term.as_str().as_bytes().len();
                if is_sliceable(line, at, len) {
                    let parts = cut_line(line, at, len);
                    Ok(Some(Content::new(Some(line_number), parts, Some(file_path.to_owned()))))
                } else {
                    Err(MatchError::Misaligned)
                }
            },
        }
    }
}

/// The pattern in the form in which it is compared.
pub(crate) fn fold_pattern(config: &Config) -> (needle: String)
    ensures
        needle@ == folded(config.search_term@, config.case_insensitive),
{
    if config.case_insensitive {
        lowercase(config.search_term.as_str())
    } else {
        config.search_term.clone()
    }
}

/// Decides on `line`, given the pattern in the form in which it is compared.
pub(crate) fn evaluate_against(
    line: &str,
    line_number: usize,
    file_path: &str,
    config: &Config,
    needle: &str,
) -> (outcome: Result<Option<Content>, MatchError>)
    requires
        needle@ == folded(config.search_term@, config.case_insensitive),
    ensures
        outcome_view(outcome) == decision(line@, line_number as nat, file_path@, config@),
        !config.case_insensitive ==> outcome is Ok,
        config.invert ==> outcome is Ok,
{
    if config.case_insensitive {
        let haystack = lowercase(line);
        evaluate_with(line, line_number, file_path, config, haystack.as_str(), needle)
    } else {
        proof {
            lemma_exact_search_is_aligned(line@, line_number as nat, file_path@, config.search_term@);
        }
        evaluate_with(line, line_number, file_path, config, line, needle)
    }
}

/// Decides whether `line` is reported, and in which pieces.
///
/// In a case-insensitive search the line and the pattern are compared in
/// lower case, and the line is then cut at the offsets found in its
/// lower-cased form. Where lower-casing moves the bytes, the pieces are those
/// that lie at these offsets of the line itself; where they cannot be cut
/// there, the outcome is `MatchError::Misaligned`.
pub fn evaluate(line: &str, line_number: usize, file_path: &str, config: &Config) -> (outcome: Result<
    Option<Content>,
    MatchError,
>)
    ensures
        outcome_view(outcome) == decision(line@, line_number as nat, file_path@, config@),
        !config.case_insensitive ==> outcome is Ok,
        config.invert ==> outcome is Ok,
{
    let needle = fold_pattern(config);
    evaluate_against(line, line_number, file_path, config, needle.as_str())
}

/// A search that compares the texts as they stand never fails.
pub proof fn lemma_exact_search_is_aligned(
    line: Seq<char>,
    line_number: nat,
    file_path: Seq<char>,
    pattern: Seq<char>,
)
    ensures
        evaluation(line, line_number, file_path, pattern, false, line, pattern) is Ok,
{
    let hay = encode_utf8(line);
    let needle = encode_utf8(pattern);
    if contains(hay, needle) {
        lemma_first_occurrence_exists(hay, needle);
        lemma_occurrence_is_sliceable(line, pattern, first_occurrence(hay, needle).unwrap());
    }
}

/// A search that compares the texts as they stand and is not inverted
/// reports the lines that hold the pattern, and no other line. Each is
/// reported in three pieces that add up to the line; the second piece is the
/// pattern, where it occurs leftmost in the line.
pub proof fn lemma_match_rebuilds_line(
    line: Seq<char>,
    line_number: nat,
    file_path: Seq<char>,
    options: Options,
)
    requires
        !options.case_insensitive,
        !options.invert,
    ensures
        contains(line, options.pattern) ==> (decision(line, line_number, file_path, options) matches Ok(
            Some(report),
        ) && {
            &&& report.segments.len() == 3
            &&& report.segments[0] + report.segments[1] + report.segments[2] == line
            &&& report.segments[1] == options.pattern
            &&& is_first_occurrence(line, options.pattern, report.segments[0].len() as int)
        }),
        !contains(line, options.pattern) ==> decision(line, line_number, file_path, options) == Ok::<
            Option<Report>,
            MatchError,
        >(None),
{
    let hay = encode_utf8(line);
    let needle = encode_utf8(options.pattern);
    lemma_bytes_hold_text(line, options.pattern);
    if contains(hay, needle) {
        lemma_first_occurrence_exists(hay, needle);
        let at = first_occurrence(hay, needle).unwrap();
        lemma_occurrence_is_sliceable(line, options.pattern, at);
        lemma_cut_rebuilds_line(line, at, needle.len() as int);
        lemma_first_occurrence_in_text(line, options.pattern, at);
    }
}

/// Whatever is compared, a reported line is reported whole: in one piece by
/// an inverted search, else in three pieces that add up to the line.
pub proof fn lemma_report_holds_line(
    line: Seq<char>,
    line_number: nat,
    file_path: Seq<char>,
    pattern: Seq<char>,
    invert: bool,
    haystack: Seq<char>,
    needle: Seq<char>,
)
    ensures
        evaluation(line, line_number, file_path, pattern, invert, haystack, needle) matches Ok(
            Some(report),
        ) ==> {
            &&& report.line() == line
            &&& report.line_number == Some(line_number)
            &&& report.file_path == Some(file_path)
            &&& invert ==> report.segments == seq![line]
            &&& !invert ==> report.segments.len() == 3 && report.segments[0] + report.segments[1]
                + report.segments[2] == line
            &&& line_number >= 1 ==> report.well_formed()
        },
{
    let outcome = evaluation(line, line_number, file_path, pattern, invert, haystack, needle);
    if let Ok(Some(report)) = outcome {
        if invert {
            seq![line].lemma_flatten_singleton();
        } else {
            let at = first_occurrence(encode_utf8(haystack), encode_utf8(needle)).unwrap();
            let len = encode_utf8(pattern).len() as int;
            lemma_cut_rebuilds_line(line, at, len);
            lemma_flatten_three(cut(line, at, len));
        }
    }
}

/// An inverted search reports the lines in which the pattern, as it is
/// compared, does not occur, each in one piece, and no other line.
pub proof fn lemma_invert_reports_other_lines(
    line: Seq<char>,
    line_number: nat,
    file_path: Seq<char>,
    options: Options,
)
    requires
        options.invert,
    ensures
        decision(line, line_number, file_path, options) == if contains(
            folded(line, options.case_insensitive),
            folded(options.pattern, options.case_insensitive),
        ) {
            Ok::<Option<Report>, MatchError>(None)
        } else {
            Ok(Some(report_of(line_number, file_path, seq![line])))
        },
{
    lemma_bytes_hold_text(
        folded(line, options.case_insensitive),
        folded(options.pattern, options.case_insensitive),
    );
}

} // verus!
