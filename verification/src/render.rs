//! The output text of the reported lines.

use crate::config::{Config, Options};
use crate::content::{Content, Report};
use crate::matcher::{decision, folded, lemma_report_holds_line, MatchError};
use crate::text::{lemma_flatten_three, texts};
use colored::Colorize;
use vstd::prelude::*;

verus! {

/// The character of a decimal digit.
pub open spec fn digit(value: nat) -> char
    recommends
        value < 10,
{
    if value == 0 {
        '0'
    } else if value == 1 {
        '1'
    } else if value == 2 {
        '2'
    } else if value == 3 {
        '3'
    } else if value == 4 {
        '4'
    } else if value == 5 {
        '5'
    } else if value == 6 {
        '6'
    } else if value == 7 {
        '7'
    } else if value == 8 {
        '8'
    } else {
        '9'
    }
}

/// A number in decimal digits, without leading zeros.
pub open spec fn decimal(value: nat) -> Seq<char>
    decreases value,
{
    if value < 10 {
        seq![digit(value)]
    } else {
        decimal(value / 10).push(digit(value % 10))
    }
}

/// The text of one decimal digit.
fn digit_text(value: usize) -> (text: &'static str)
    requires
        value < 10,
    ensures
        text@ == seq![digit(value as nat)],
{
    proof {
        reveal_strlit("0");
        reveal_strlit("1");
        reveal_strlit("2");
        reveal_strlit("3");
        reveal_strlit("4");
        reveal_strlit("5");
        reveal_strlit("6");
        reveal_strlit("7");
        reveal_strlit("8");
        reveal_strlit("9");
    }
    let text = if value == 0 {
        "0"
    } else if value == 1 {
        "1"
    } else if value == 2 {
        "2"
    } else if value == 3 {
        "3"
    } else if value == 4 {
        "4"
    } else if value == 5 {
        "5"
    } else if value == 6 {
        "6"
    } else if value == 7 {
        "7"
    } else if value == 8 {
        "8"
    } else {
        "9"
    };
    assert(text@ =~= seq![digit(value as nat)]);
    text
}

/// Writes a number in decimal digits.
pub fn decimal_string(value: usize) -> (text: String)
    ensures
        text@ == decimal(value as nat),
{
    let mut text = String::from_str(digit_text(value % 10));
    let mut rest: usize = value / 10;
    while rest > 0
        invariant
            decimal(value as nat) == if rest > 0 {
                decimal(rest as nat) + text@
            } else {
                text@
            },
        decreases rest,
    {
        text = String::from_str(digit_text(rest % 10)).concat(text.as_str());
        rest = rest / 10;
    }
    text
}

/// What stands before the text of a reported line: the file's path and
/// `"| "` where file names are shown, then the line's number and `": "`
/// where line numbers are shown.
pub open spec fn decoration(report: Report, show_filename: bool, show_line_number: bool) -> Seq<
    char,
> {
    let file = if show_filename {
        report.file_path.unwrap() + seq!['|', ' ']
    } else {
        Seq::empty()
    };
    let number = if show_line_number {
        decimal(report.line_number.unwrap()) + seq![':', ' ']
    } else {
        Seq::empty()
    };
    file + number
}

/// One line of output: the decoration, the pieces `shown`, and a newline.
pub open spec fn rendered(
    report: Report,
    show_filename: bool,
    show_line_number: bool,
    shown: Seq<Seq<char>>,
) -> Seq<char> {
    decoration(report, show_filename, show_line_number) + shown.flatten() + seq!['\n']
}

/// Whether the second piece of a line is coloured: colour is asked for and
/// the line was cut.
pub open spec fn paints(colorize: bool, segments: Seq<Seq<char>>) -> bool {
    colorize && segments.len() > 1
}

/// The escape sequence that ends a colour.
pub open spec fn reset() -> Seq<char> {
    seq!['\u{1b}', '[', '0', 'm']
}

/// `text` between the escape sequences that begin a red foreground and end
/// it.
pub open spec fn red(text: Seq<char>) -> Seq<char> {
    seq!['\u{1b}', '[', '3', '1', 'm'] + text + reset()
}

/// `text` holds the escape sequence that ends a colour.
pub open spec fn holds_reset(text: Seq<char>) -> bool {
    exists|at: int| 0 <= at && at + 4 <= text.len() && #[trigger] text.subrange(at, at + 4) == reset()
}

/// What painting `text` red may give: `text` itself where colours are
/// switched off, `red(text)` where they are on. Of a text that itself holds
/// a reset sequence nothing is said.
pub open spec fn painting(text: Seq<char>, painted: Seq<char>) -> bool {
    painted == text || painted == red(text) || holds_reset(text)
}

/// `Colorize::color` of the crate colored with the colour name `"red"`,
/// written out through the `Display` of the `ColoredString` it returns.
///
/// Whether colored emits colours depends on its override switch, on the
/// environment variables `CLICOLOR`, `CLICOLOR_FORCE` and `NO_COLOR`, and on
/// standard output being a terminal. The contract therefore states what both
/// outcomes are, and which of them comes is left open. It assumes that no
/// other thread flips the override switch while the text is written.
#[verifier::external_body]
fn paint_red(text: &str) -> (painted: String)
    ensures
        painting(text@, painted@),
{
    format!("{}", text.color("red"))
}

/// The report holds what its decoration shows.
pub open spec fn can_decorate(report: Report, options: Options) -> bool {
    &&& options.show_filename ==> report.file_path is Some
    &&& options.show_line_number ==> report.line_number is Some
}

/// Renders one reported line, with `painted` in place of its second piece
/// where that piece is coloured.
pub fn render_line_with(content: &Content, config: &Config, painted: &str) -> (out: String)
    requires
        can_decorate(content@, config@),
    ensures
        out@ == rendered(
            content@,
            config.show_filename,
            config.show_line_number,
            if paints(config.colorize, content@.segments) {
                content@.segments.update(1, painted@)
            } else {
                content@.segments
            },
        ),
{
    let ghost shown = if paints(config.colorize, content@.segments) {
        content@.segments.update(1, painted@)
    } else {
        content@.segments
    };
    let mut out = String::new();
    if config.show_filename {
        match &content.file_path {
            Some(path) => {
                proof {
                    reveal_strlit("| ");
                }
                out.append(path.as_str());
                out.append("| ");
                assert(out@ =~= path@ + seq!['|', ' ']);
            },
            None => {},
        }
    }
    let ghost file = out@;
    if config.show_line_number {
        match content.line_number {
            Some(number) => {
                proof {
                    reveal_strlit(": ");
                }
                let digits = decimal_string(number);
                out.append(digits.as_str());
                out.append(": ");
                assert(out@ =~= file + (decimal(number as nat) + seq![':', ' ']));
            },
            None => {},
        }
    }
    let ghost prefix = out@;
    assert(prefix =~= decoration(content@, config.show_filename, config.show_line_number));
    let count: usize = content.line_vec.len();
    let mut index: usize = 0;
    while index < count
        invariant
            count == content.line_vec.len(),
            index <= count,
            shown.len() == count,
            forall|i: int| 0 <= i < count ==> shown[i] == if config.colorize && i == 1 {
                painted@
            } else {
                content.line_vec@[i]@
            },
            out@ == prefix + shown.take(index as int).flatten(),
        decreases count - index,
    {
        proof {
            assert(shown.take(index + 1) =~= shown.take(index as int).push(shown[index as int]));
            shown.take(index as int).lemma_flatten_push(shown[index as int]);
        }
        if config.colorize && index == 1 {
            out.append(painted);
        } else {
            out.append(content.line_vec[index].as_str());
        }
        index += 1;
    }
    proof {
        reveal_strlit("\n");
        assert(shown.take(count as int) =~= shown);
    }
    out.append("\n");
    assert(out@ =~= prefix + shown.flatten() + seq!['\n']);
    out
}

/// `out` is an output line of the report: the line as `rendered` shows it,
/// with the second piece painted where it is coloured.
pub open spec fn renders(report: Report, options: Options, out: Seq<char>) -> bool {
    if paints(options.colorize, report.segments) {
        exists|painted: Seq<char>|
            painting(report.segments[1], painted) && out == #[trigger] rendered(
                report,
                options.show_filename,
                options.show_line_number,
                report.segments.update(1, painted),
            )
    } else {
        out == rendered(report, options.show_filename, options.show_line_number, report.segments)
    }
}

/// Renders one reported line.
///
/// Where colour is asked for and the line was cut, the second piece is
/// painted red; what painting gives depends on whether colours are switched
/// on where the program runs.
pub fn render_line(content: &Content, config: &Config) -> (out: String)
    requires
        can_decorate(content@, config@),
    ensures
        renders(content@, config@, out@),
{
    if config.colorize && content.line_vec.len() > 1 {
        let painted = paint_red(content.line_vec[1].as_str());
        let out = render_line_with(content, config, painted.as_str());
        assert(painting(content@.segments[1], painted@) && out@ == rendered(
            content@,
            config@.show_filename,
            config@.show_line_number,
            content@.segments.update(1, painted@),
        ));
        out
    } else {
        render_line_with(content, config, "")
    }
}

/// Renders the reported lines, one output line for each, in their order.
pub fn render(results: &Vec<Content>, config: &Config) -> (lines: Vec<String>)
    requires
        forall|i: int| 0 <= i < results.len() ==> can_decorate(#[trigger] results[i]@, config@),
    ensures
        lines.len() == results.len(),
        forall|i: int| 0 <= i < results.len() ==> renders(results[i]@, config@, #[trigger] lines[i]@),
{
    let count: usize = results.len();
    let mut lines: Vec<String> = Vec::new();
    let mut index: usize = 0;
    while index < count
        invariant
            count == results.len(),
            index <= count,
            lines.len() == index,
            forall|i: int| 0 <= i < results.len() ==> can_decorate(#[trigger] results[i]@, config@),
            forall|i: int| 0 <= i < index ==> renders(results[i]@, config@, #[trigger] lines[i]@),
        decreases count - index,
    {
        let line = render_line(&results[index], config);
        lines.push(line);
        index += 1;
    }
    lines
}

/// The output line of a report in three pieces is its decoration, the three
/// pieces and a newline; where the second piece is painted, the painted text
/// stands in its place.
pub proof fn lemma_rendered_in_three(
    report: Report,
    show_filename: bool,
    show_line_number: bool,
    painted: Seq<char>,
)
    requires
        report.segments.len() == 3,
    ensures
        rendered(report, show_filename, show_line_number, report.segments) == decoration(
            report,
            show_filename,
            show_line_number,
        ) + report.segments[0] + report.segments[1] + report.segments[2] + seq!['\n'],
        rendered(report, show_filename, show_line_number, report.segments.update(1, painted))
            == decoration(report, show_filename, show_line_number) + report.segments[0] + painted
            + report.segments[2] + seq!['\n'],
{
    lemma_flatten_three(report.segments);
    lemma_flatten_three(report.segments.update(1, painted));
}

/// Without colour, the output line of a reported line is its decoration, the
/// line itself and a newline: taking the decoration and the newline away
/// gives the line back.
pub proof fn lemma_plain_output_holds_line(
    line: Seq<char>,
    line_number: nat,
    file_path: Seq<char>,
    options: Options,
    report: Report,
    out: Seq<char>,
)
    requires
        !options.colorize,
        decision(line, line_number, file_path, options) == Ok::<Option<Report>, MatchError>(
            Some(report),
        ),
        renders(report, options, out),
    ensures
        out == decoration(report, options.show_filename, options.show_line_number) + line
            + seq!['\n'],
{
    lemma_report_holds_line(
        line,
        line_number,
        file_path,
        options.pattern,
        options.invert,
        folded(line, options.case_insensitive),
        folded(options.pattern, options.case_insensitive),
    );
}

} // verus!
