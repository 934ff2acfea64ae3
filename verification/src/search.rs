//! The search over the lines of files: which lines are reported, and in
//! which order.

use crate::config::{Config, Options};
use crate::content::{Content, Report};
use crate::matcher::{
    decision, evaluate_against, fold_pattern, folded, lemma_report_holds_line, outcome_view,
    MatchError,
};
use crate::text::texts;
use vstd::prelude::*;

verus! {

/// A file to search: its path and its lines, without their line ends.
#[derive(Debug, Clone, PartialEq, Eq)]
pub struct SourceFile {
    /// The path under which the file's lines are reported.
    pub path: String,
    /// The lines, the first of which has the number 1.
    pub lines: Vec<String>,
}

/// What a `SourceFile` stands for.
pub struct Source {
    pub path: Seq<char>,
    pub lines: Seq<Seq<char>>,
}

impl View for SourceFile {
    type V = Source;

    open spec fn view(&self) -> Source {
        Source { path: self.path@, lines: texts(self.lines@) }
    }
}

/// What was read of a file, line by line: the text of each line that could
/// be read, and `None` for each that could not.
pub open spec fn read_texts(reads: Seq<Option<String>>) -> Seq<Option<Seq<char>>> {
    Seq::new(
        reads.len(),
        |i: int|
            match reads[i] {
                Some(text) => Some(text@),
                None => None,
            },
    )
}

/// A line that was read is kept as it is.
pub open spec fn kept() -> spec_fn(Option<Seq<char>>) -> Option<Seq<char>> {
    |read: Option<Seq<char>>| read
}

/// The lines that could be read, in their order.
pub open spec fn readable(reads: Seq<Option<Seq<char>>>) -> Seq<Seq<char>> {
    reads.filter_map(kept())
}

impl SourceFile {
    /// The file that the search sees, given what reading it line by line
    /// gave. A line that could not be read is left out, and the lines after
    /// it move up: line numbers count the lines that were read.
    pub fn from_reads(path: String, reads: &Vec<Option<String>>) -> (file: SourceFile)
        ensures
            file@.path == path@,
            file@.lines == readable(read_texts(reads@)),
    {
        let ghost all = read_texts(reads@);
        let count: usize = reads.len();
        let mut lines: Vec<String> = Vec::new();
        let mut index: usize = 0;
        while index < count
            invariant
                count == reads.len(),
                index <= count,
                all == read_texts(reads@),
                texts(lines@) == all.take(index as int).filter_map(kept()),
            decreases count - index,
        {
            proof {
                all.lemma_filter_map_take_succ(kept(), index as int);
            }
            match &reads[index] {
                Some(text) => {
                    let ghost before = texts(lines@);
                    lines.push(text.clone());
                    assert(texts(lines@) =~= before + seq![text@]);
                },
                None => {},
            }
            index += 1;
        }
        assert(all.take(count as int) =~= all);
        SourceFile { path, lines }
    }
}

/// What a sequence of results stands for.
pub open spec fn reports(results: Seq<Content>) -> Seq<Report> {
    Seq::new(results.len(), |i: int| results[i]@)
}

/// What a sequence of files stands for.
pub open spec fn sources(files: Seq<SourceFile>) -> Seq<Source> {
    Seq::new(files.len(), |i: int| files[i]@)
}

/// The decision on the line at `index` of a file. Lines are numbered from 1.
pub open spec fn line_decision(source: Source, index: int, options: Options) -> Result<
    Option<Report>,
    MatchError,
> {
    decision(source.lines[index], (index + 1) as nat, source.path, options)
}

/// The decisions on the lines of a file, in line order.
pub open spec fn decisions(source: Source, options: Options) -> Seq<
    Result<Option<Report>, MatchError>,
> {
    Seq::new(source.lines.len(), |index: int| line_decision(source, index, options))
}

/// The report that a decision holds, if it holds one.
pub open spec fn reported() -> spec_fn(Result<Option<Report>, MatchError>) -> Option<Report> {
    |outcome: Result<Option<Report>, MatchError>|
        match outcome {
            Ok(Some(report)) => Some(report),
            _ => None,
        }
}

/// The reports of a file: those of its reported lines, in line order.
pub open spec fn file_reports(source: Source, options: Options) -> Seq<Report> {
    decisions(source, options).filter_map(reported())
}

/// Some line of the file cannot be evaluated.
pub open spec fn file_fails(source: Source, options: Options) -> bool {
    exists|index: int|
        0 <= index < source.lines.len() && #[trigger] line_decision(source, index, options) is Err
}

/// The search of one file: its reports, unless one of its lines cannot be
/// evaluated.
pub open spec fn file_search(source: Source, options: Options) -> Result<Seq<Report>, MatchError> {
    if file_fails(source, options) {
        Err(MatchError::Misaligned)
    } else {
        Ok(file_reports(source, options))
    }
}

/// The reports of each file.
pub open spec fn reports_by_file(sources: Seq<Source>, options: Options) -> Seq<Seq<Report>> {
    Seq::new(sources.len(), |f: int| file_reports(sources[f], options))
}

/// The search of several files: the reports of each, file after file, unless
/// a line of one of them cannot be evaluated.
pub open spec fn full_search(sources: Seq<Source>, options: Options) -> Result<
    Seq<Report>,
    MatchError,
> {
    if exists|f: int| 0 <= f < sources.len() && file_fails(#[trigger] sources[f], options) {
        Err(MatchError::Misaligned)
    } else {
        Ok(reports_by_file(sources, options).flatten())
    }
}

/// What the result of a search stands for.
pub open spec fn search_view(found: Result<Vec<Content>, MatchError>) -> Result<
    Seq<Report>,
    MatchError,
> {
    match found {
        Ok(results) => Ok(reports(results@)),
        Err(error) => Err(error),
    }
}

/// A report that a search of `source` makes of one of its first `count`
/// lines: it names the file and the line, and holds that line.
pub open spec fn reports_line_of(report: Report, source: Source, count: int) -> bool {
    &&& report.well_formed()
    &&& report.file_path == Some(source.path)
    &&& report.line_number.unwrap() <= count
    &&& report.line() == source.lines[report.line_number.unwrap() - 1]
}

/// The reports of the first `count` lines of a file are reports of these
/// lines, in ascending line order.
proof fn lemma_reports_of_prefix(source: Source, options: Options, count: int)
    requires
        0 <= count <= source.lines.len(),
    ensures
        ({
            let found = decisions(source, options).take(count).filter_map(reported());
            &&& forall|i: int|
                0 <= i < found.len() ==> reports_line_of(#[trigger] found[i], source, count)
            &&& forall|i: int, j: int|
                0 <= i < j < found.len() ==> found[i].line_number.unwrap()
                    < found[j].line_number.unwrap()
        }),
    decreases count,
{
    let all = decisions(source, options);
    if count > 0 {
        let before = all.take(count - 1).filter_map(reported());
        lemma_reports_of_prefix(source, options, count - 1);
        all.lemma_filter_map_take_succ(reported(), count - 1);
        assert(all.take(count - 1 + 1) == all.take(count));
        lemma_report_holds_line(
            source.lines[count - 1],
            count as nat,
            source.path,
            options.pattern,
            options.invert,
            folded(source.lines[count - 1], options.case_insensitive),
            folded(options.pattern, options.case_insensitive),
        );
        let found = all.take(count).filter_map(reported());
        assert forall|i: int| 0 <= i < found.len() implies reports_line_of(
            #[trigger] found[i],
            source,
            count,
        ) by {
            if i < before.len() {
                assert(reports_line_of(before[i], source, count - 1));
            }
        }
        assert forall|i: int, j: int| 0 <= i < j < found.len() implies found[i].line_number.unwrap()
            < found[j].line_number.unwrap() by {
            assert(reports_line_of(before[i], source, count - 1));
            if j < before.len() {
                assert(reports_line_of(before[j], source, count - 1));
            }
        }
    }
}

/// The reports of a file name the file and are well formed; each holds the
/// line that its number names; and they stand in ascending line order, so no
/// line is reported twice.
pub proof fn lemma_file_reports_in_line_order(source: Source, options: Options)
    ensures
        forall|i: int|
            0 <= i < file_reports(source, options).len() ==> reports_line_of(
                #[trigger] file_reports(source, options)[i],
                source,
                source.lines.len() as int,
            ),
        forall|i: int, j: int|
            0 <= i < j < file_reports(source, options).len() ==> file_reports(
                source,
                options,
            )[i].line_number.unwrap() < file_reports(source, options)[j].line_number.unwrap(),
{
    let all = decisions(source, options);
    assert(all.take(all.len() as int) =~= all);
    lemma_reports_of_prefix(source, options, source.lines.len() as int);
}

/// What the search finds can be rendered with any decoration.
pub open spec fn all_well_formed(results: Seq<Content>) -> bool {
    forall|i: int| 0 <= i < results.len() ==> (#[trigger] results[i]@).well_formed()
}

/// Searches the lines of one file.
///
/// The results stand in line order. A search that compares the texts as they
/// stand, and an inverted search, never fail.
pub fn search_file(file: &SourceFile, config: &Config) -> (found: Result<Vec<Content>, MatchError>)
    ensures
        search_view(found) == file_search(file@, config@),
        !config.case_insensitive || config.invert ==> found is Ok,
        found matches Ok(results) ==> all_well_formed(results@),
{
    let needle = fold_pattern(config);
    let count: usize = file.lines.len();
    let ghost all = decisions(file@, config@);
    let mut results: Vec<Content> = Vec::new();
    let mut index: usize = 0;
    while index < count
        invariant
            count == file.lines.len(),
            index <= count,
            all == decisions(file@, config@),
            needle@ == folded(config.search_term@, config.case_insensitive),
            reports(results@) == all.take(index as int).filter_map(reported()),
            forall|i: int| 0 <= i < index ==> line_decision(file@, i, config@) is Ok,
        decreases count - index,
    {
        let outcome = evaluate_against(
            file.lines[index].as_str(),
            index + 1,
            file.path.as_str(),
            config,
            needle.as_str(),
        );
        proof {
            assert(outcome_view(outcome) == line_decision(file@, index as int, config@));
            all.lemma_filter_map_take_succ(reported(), index as int);
        }
        match outcome {
            Err(error) => {
                return Err(error);
            },
            Ok(Some(content)) => {
                let ghost before = reports(results@);
                results.push(content);
                assert(reports(results@) =~= before + seq![content@]);
            },
            Ok(None) => {},
        }
        index += 1;
    }
    proof {
        assert(all.take(count as int) =~= all);
        lemma_file_reports_in_line_order(file@, config@);
        assert forall|i: int| 0 <= i < results.len() implies (#[trigger] results[i]@).well_formed() by {
            assert(results[i]@ == reports(results@)[i]);
        }
    }
    Ok(results)
}

/// Searches the files one after the other.
///
/// The results of a file stand in line order, after those of the files
/// before it.
pub fn search(files: &Vec<SourceFile>, config: &Config) -> (found: Result<Vec<Content>, MatchError>)
    ensures
        search_view(found) == full_search(sources(files@), config@),
        !config.case_insensitive || config.invert ==> found is Ok,
        found matches Ok(results) ==> all_well_formed(results@),
{
    let ghost by_file = reports_by_file(sources(files@), config@);
    let count: usize = files.len();
    let mut results: Vec<Content> = Vec::new();
    let mut index: usize = 0;
    while index < count
        invariant
            count == files.len(),
            index <= count,
            by_file == reports_by_file(sources(files@), config@),
            reports(results@) == by_file.take(index as int).flatten(),
            all_well_formed(results@),
            forall|f: int| 0 <= f < index ==> !file_fails(#[trigger] sources(files@)[f], config@),
        decreases count - index,
    {
        let of_file = search_file(&files[index], config);
        match of_file {
            Err(error) => {
                assert(file_fails(sources(files@)[index as int], config@));
                return Err(error);
            },
            Ok(mut of_file) => {
                let ghost before = reports(results@);
                let ghost added = reports(of_file@);
                let ghost earlier = results@;
                let ghost later = of_file@;
                results.append(&mut of_file);
                proof {
                    assert(reports(results@) =~= before + added);
                    assert forall|i: int| 0 <= i < results.len() implies (
                    #[trigger] results[i]@).well_formed() by {
                        if i < earlier.len() {
                            assert(results[i] == earlier[i]);
                        } else {
                            assert(results[i] == later[i - earlier.len()]);
                        }
                    }
                    assert(by_file.take(index + 1) =~= by_file.take(index as int).push(
                        by_file[index as int],
                    ));
                    by_file.take(index as int).lemma_flatten_push(by_file[index as int]);
                }
            },
        }
        index += 1;
    }
    assert(by_file.take(count as int) =~= by_file);
    Ok(results)
}

} // verus!
