//! What one invocation asks for.

use crate::text::{same_text, texts};
use vstd::prelude::*;

verus! {

/// The pattern, the files to search and the switches of one invocation.
///
/// The search itself puts no condition on these. An invocation is meant to
/// name a pattern that is not empty and at least one file; an empty pattern
/// occurs at the start of every line.
#[derive(Debug, Clone, PartialEq, Eq)]
pub struct Config {
    /// The literal text to search for.
    pub search_term: String,
    /// The files to search, in the order of the search.
    pub file_paths: Vec<String>,
    /// `-i`: compare lower-cased text.
    pub case_insensitive: bool,
    /// `-v`: report the lines that do not hold the pattern.
    pub invert: bool,
    /// `-r`: the paths stand for everything below them.
    pub recursive: bool,
    /// `-f`: show each line's file.
    pub show_filename: bool,
    /// `-n`: show each line's number.
    pub show_line_number: bool,
    /// `-c`: colour the matched text.
    pub colorize: bool,
}

/// What a `Config` stands for.
pub struct Options {
    pub pattern: Seq<char>,
    pub paths: Seq<Seq<char>>,
    pub case_insensitive: bool,
    pub invert: bool,
    pub recursive: bool,
    pub show_filename: bool,
    pub show_line_number: bool,
    pub colorize: bool,
}

impl Options {
    /// An invocation as it is meant: the pattern is not empty and at least
    /// one file is named.
    pub open spec fn well_formed(self) -> bool {
        self.pattern.len() > 0 && self.paths.len() > 0
    }
}

impl View for Config {
    type V = Options;

    open spec fn view(&self) -> Options {
        Options {
            pattern: self.search_term@,
            paths: texts(self.file_paths@),
            case_insensitive: self.case_insensitive,
            invert: self.invert,
            recursive: self.recursive,
            show_filename: self.show_filename,
            show_line_number: self.show_line_number,
            colorize: self.colorize,
        }
    }
}

/// An argument that begins with `-` is a switch; every other one names a
/// file. A path that begins with `-` is therefore taken for a switch.
pub open spec fn is_switch(arg: Seq<char>) -> bool {
    arg.len() > 0 && arg[0] == '-'
}

/// The test that picks the paths out of the arguments.
pub open spec fn is_path() -> spec_fn(Seq<char>) -> bool {
    |arg: Seq<char>| !is_switch(arg)
}

/// The arguments after the pattern that name files, in their order.
pub open spec fn named_paths(args: Seq<Seq<char>>) -> Seq<Seq<char>> {
    args.skip(2).filter(is_path())
}

/// `switch` stands among the arguments after the pattern.
pub open spec fn given(args: Seq<Seq<char>>, switch: Seq<char>) -> bool {
    args.skip(2).contains(switch)
}

/// What the arguments of an invocation ask for. The first argument is the
/// program's name and the second the pattern. A switch that is not known
/// sets nothing.
pub open spec fn options_of(args: Seq<Seq<char>>) -> Options
    recommends
        args.len() >= 2,
{
    Options {
        pattern: args[1],
        paths: named_paths(args),
        case_insensitive: given(args, seq!['-', 'i']),
        invert: given(args, seq!['-', 'v']),
        recursive: given(args, seq!['-', 'r']),
        show_filename: given(args, seq!['-', 'f']),
        show_line_number: given(args, seq!['-', 'n']),
        colorize: given(args, seq!['-', 'c']),
    }
}

/// The second argument asks for the usage text.
pub open spec fn asks_for_help(args: Seq<Seq<char>>) -> bool
    recommends
        args.len() >= 2,
{
    args[1] == seq!['-', 'h'] || args[1] == seq!['-', '-', 'h', 'e', 'l', 'p']
}

/// Why an invocation cannot be carried out.
#[derive(Debug, Clone, Copy, PartialEq, Eq)]
pub enum UsageError {
    /// No pattern was given.
    MissingSearchTerm,
    /// No file was named.
    MissingFilePath,
}

/// What an invocation asks the program to do.
#[derive(Debug, Clone, PartialEq, Eq)]
pub enum Invocation {
    /// Print the usage text and do nothing else.
    Help,
    /// Search as the configuration says.
    Search(Config),
}

/// What an `Invocation` stands for.
pub enum Asked {
    Help,
    Search(Options),
}

/// What the result of reading the arguments stands for.
pub open spec fn asked(read: Result<Invocation, UsageError>) -> Result<Asked, UsageError> {
    match read {
        Ok(Invocation::Help) => Ok(Asked::Help),
        Ok(Invocation::Search(config)) => Ok(Asked::Search(config@)),
        Err(error) => Err(error),
    }
}

/// How the arguments of an invocation are read: without a pattern nothing
/// can be done; `-h` or `--help` in the pattern's place asks for the usage
/// text, whatever follows; otherwise at least one file must be named.
pub open spec fn reading(args: Seq<Seq<char>>) -> Result<Asked, UsageError> {
    if args.len() < 2 {
        Err(UsageError::MissingSearchTerm)
    } else if asks_for_help(args) {
        Ok(Asked::Help)
    } else if named_paths(args).len() == 0 {
        Err(UsageError::MissingFilePath)
    } else {
        Ok(Asked::Search(options_of(args)))
    }
}

/// A search that the arguments ask for is well formed, unless the pattern
/// given is the empty text.
pub proof fn lemma_reading_is_well_formed(args: Seq<Seq<char>>)
    ensures
        reading(args) matches Ok(Asked::Search(options)) ==> options == options_of(args) && (
        args[1].len() > 0 ==> options.well_formed()),
{
}

/// Tests whether an argument is a switch.
fn begins_with_dash(arg: &str) -> (yes: bool)
    ensures
        yes == is_switch(arg@),
{
    !arg.is_empty() && arg.get_char(0) == '-'
}

/// Pushing an element adds it to what a sequence contains.
proof fn lemma_contains_push(items: Seq<Seq<char>>, last: Seq<char>, wanted: Seq<char>)
    ensures
        items.push(last).contains(wanted) <==> items.contains(wanted) || last == wanted,
{
    let longer = items.push(last);
    if items.contains(wanted) {
        let i = choose|i: int| 0 <= i < items.len() && items[i] == wanted;
        assert(longer[i] == wanted);
    }
    if last == wanted {
        assert(longer[items.len() as int] == wanted);
    }
    if longer.contains(wanted) {
        let i = choose|i: int| 0 <= i < longer.len() && longer[i] == wanted;
        if i < items.len() {
            assert(items[i] == wanted);
        }
    }
}

impl Config {
    /// Reads the pattern, the paths and the switches out of the arguments of
    /// an invocation.
    ///
    /// The paths are taken as they are given: where `recursive` is set, it is
    /// for the caller to put what lies below them in their place.
    pub fn new(args: &Vec<String>) -> (config: Config)
        requires
            args.len() >= 2,
        ensures
            config@ == options_of(texts(args@)),
    {
        let ghost all = texts(args@);
        let ghost rest = all.skip(2);
        let mut config = Config {
            search_term: args[1].clone(),
            file_paths: Vec::new(),
            case_insensitive: false,
            invert: false,
            recursive: false,
            show_filename: false,
            show_line_number: false,
            colorize: false,
        };
        proof {
            reveal_strlit("-i");
            reveal_strlit("-v");
            reveal_strlit("-r");
            reveal_strlit("-f");
            reveal_strlit("-n");
            reveal_strlit("-c");
            assert(rest.take(0).filter(is_path()) =~= Seq::<Seq<char>>::empty()) by {
                reveal(Seq::filter);
            }
            assert(texts(config.file_paths@) =~= Seq::<Seq<char>>::empty());
            assert("-i"@ =~= seq!['-', 'i']);
            assert("-v"@ =~= seq!['-', 'v']);
            assert("-r"@ =~= seq!['-', 'r']);
            assert("-f"@ =~= seq!['-', 'f']);
            assert("-n"@ =~= seq!['-', 'n']);
            assert("-c"@ =~= seq!['-', 'c']);
        }
        let count: usize = args.len();
        let mut index: usize = 2;
        while index < count
            invariant
                count == args.len(),
                2 <= index <= count,
                all == texts(args@),
                rest == all.skip(2),
                "-i"@ == seq!['-', 'i'],
                "-v"@ == seq!['-', 'v'],
                "-r"@ == seq!['-', 'r'],
                "-f"@ == seq!['-', 'f'],
                "-n"@ == seq!['-', 'n'],
                "-c"@ == seq!['-', 'c'],
                config.search_term@ == all[1],
                texts(config.file_paths@) == rest.take(index - 2).filter(is_path()),
                config.case_insensitive == rest.take(index - 2).contains(seq!['-', 'i']),
                config.invert == rest.take(index - 2).contains(seq!['-', 'v']),
                config.recursive == rest.take(index - 2).contains(seq!['-', 'r']),
                config.show_filename == rest.take(index - 2).contains(seq!['-', 'f']),
                config.show_line_number == rest.take(index - 2).contains(seq!['-', 'n']),
                config.colorize == rest.take(index - 2).contains(seq!['-', 'c']),
            decreases count - index,
        {
            let arg = args[index].as_str();
            let ghost seen = rest.take(index - 2);
            proof {
                assert(rest.take(index - 1) =~= seen.push(arg@));
                seen.lemma_filter_push(arg@, is_path());
                lemma_contains_push(seen, arg@, seq!['-', 'i']);
                lemma_contains_push(seen, arg@, seq!['-', 'v']);
                lemma_contains_push(seen, arg@, seq!['-', 'r']);
                lemma_contains_push(seen, arg@, seq!['-', 'f']);
                lemma_contains_push(seen, arg@, seq!['-', 'n']);
                lemma_contains_push(seen, arg@, seq!['-', 'c']);
            }
            if begins_with_dash(arg) {
                if same_text(arg, "-i") {
                    config.case_insensitive = true;
                } else if same_text(arg, "-v") {
                    config.invert = true;
                } else if same_text(arg, "-r") {
                    config.recursive = true;
                } else if same_text(arg, "-f") {
                    config.show_filename = true;
                } else if same_text(arg, "-n") {
                    config.show_line_number = true;
                } else if same_text(arg, "-c") {
                    config.colorize = true;
                }
            } else {
                let ghost before = texts(config.file_paths@);
                config.file_paths.push(args[index].clone());
                assert(texts(config.file_paths@) =~= before.push(arg@));
            }
            index += 1;
        }
        assert(rest.take(count - 2) =~= rest);
        config
    }
}

/// Reads the arguments of an invocation and says what it asks for.
pub fn parse_args(args: &Vec<String>) -> (read: Result<Invocation, UsageError>)
    ensures
        asked(read) == reading(texts(args@)),
{
    if args.len() < 2 {
        return Err(UsageError::MissingSearchTerm);
    }
    proof {
        reveal_strlit("-h");
        reveal_strlit("--help");
        assert("-h"@ =~= seq!['-', 'h']);
        assert("--help"@ =~= seq!['-', '-', 'h', 'e', 'l', 'p']);
    }
    let second = args[1].as_str();
    if same_text(second, "-h") || same_text(second, "--help") {
        return Ok(Invocation::Help);
    }
    let config = Config::new(args);
    if config.file_paths.len() == 0 {
        return Err(UsageError::MissingFilePath);
    }
    Ok(Invocation::Search(config))
}

} // verus!
