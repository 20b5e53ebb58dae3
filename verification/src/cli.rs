use crate::text::{find_text, first_at, has_prefix, text_is, to_chars, trim_range, trimmed};
use vstd::prelude::*;
use vstd::string::StrSliceExecFns;
use vstd::string::StringExecFns;

verus! {

/// How the mate sequence is printed.
#[derive(Clone, Copy, Debug, PartialEq, Eq, Structural)]
pub enum Output {
    /// One numbered line for each move.
    Text,
    /// One array of the moves.
    Json,
}

/// How a move is written.
#[derive(Clone, Copy, Debug, PartialEq, Eq, Structural)]
pub enum MoveFormat {
    Usi,
    Kif,
    Csa,
    Official,
    Traditional,
}

/// What the command line asks for.
#[derive(Debug)]
pub struct Opts {
    pub verbose: bool,
    pub output: Output,
    pub move_format: MoveFormat,
    pub engine_path: Option<String>,
}

/// What the command line asks for, the path as its characters.
pub ghost struct OptsView {
    pub verbose: bool,
    pub output: Output,
    pub move_format: MoveFormat,
    pub engine_path: Option<Seq<char>>,
}

impl Opts {
    /// What the options hold.
    pub open spec fn view(&self) -> OptsView {
        OptsView {
            verbose: self.verbose,
            output: self.output,
            move_format: self.move_format,
            engine_path: match self.engine_path {
                Some(path) => Some(path@),
                None => None,
            },
        }
    }
}

/// The options of a command line without arguments: no tracing, text, moves
/// in the traditional notation, and the solver of this library.
pub open spec fn default_opts() -> OptsView {
    OptsView {
        verbose: false,
        output: Output::Text,
        move_format: MoveFormat::Traditional,
        engine_path: None,
    }
}

/// The format of moves that a name stands for.
pub open spec fn spec_move_format(name: Seq<char>) -> Option<MoveFormat> {
    if name == "kif"@ {
        Some(MoveFormat::Kif)
    } else if name == "usi"@ {
        Some(MoveFormat::Usi)
    } else if name == "csa"@ {
        Some(MoveFormat::Csa)
    } else if name == "official"@ {
        Some(MoveFormat::Official)
    } else if name == "traditional"@ {
        Some(MoveFormat::Traditional)
    } else {
        None
    }
}

/// The options after one more argument; `None` where the argument names a
/// format of moves that there is not.
pub open spec fn arg_step(opts: OptsView, a: Seq<char>) -> Option<OptsView> {
    let verbose = opts.verbose || a == "--verbose"@;
    let output = if a == "--output=json"@ {
        Output::Json
    } else {
        opts.output
    };
    let engine_path = if "--engine-path="@.is_prefix_of(a) {
        Some(a.skip("--engine-path="@.len() as int))
    } else {
        opts.engine_path
    };
    if "--move-format="@.is_prefix_of(a) {
        match spec_move_format(a.skip("--move-format="@.len() as int)) {
            Some(move_format) => Some(OptsView { verbose, output, move_format, engine_path }),
            None => None,
        }
    } else {
        Some(OptsView { verbose, output, move_format: opts.move_format, engine_path })
    }
}

/// The options after the first `n` arguments.
pub open spec fn spec_parse_args(args: Seq<String>, n: int) -> Option<OptsView>
    decreases n,
{
    if n <= 0 {
        Some(default_opts())
    } else {
        match spec_parse_args(args, n - 1) {
            Some(opts) => arg_step(opts, args[n - 1]@),
            None => None,
        }
    }
}

/// Arguments that are refused stay refused, whatever follows them.
pub proof fn lemma_args_stay_refused(args: Seq<String>, m: int, n: int)
    requires
        0 <= m <= n,
        spec_parse_args(args, m) is None,
    ensures
        spec_parse_args(args, n) is None,
    decreases n - m,
{
    if m < n {
        lemma_args_stay_refused(args, m, n - 1);
    }
}

/// The format of moves that the characters from `start` up to `end` name.
fn move_format_named(chars: &Vec<char>, start: usize, end: usize) -> (format: Option<MoveFormat>)
    requires
        start <= end <= chars@.len(),
    ensures
        format == spec_move_format(chars@.subrange(start as int, end as int)),
{
    if text_is(chars, start, end, "kif") {
        Some(MoveFormat::Kif)
    } else if text_is(chars, start, end, "usi") {
        Some(MoveFormat::Usi)
    } else if text_is(chars, start, end, "csa") {
        Some(MoveFormat::Csa)
    } else if text_is(chars, start, end, "official") {
        Some(MoveFormat::Official)
    } else if text_is(chars, start, end, "traditional") {
        Some(MoveFormat::Traditional)
    } else {
        None
    }
}

/// The options that the arguments of a command line ask for. Of two
/// arguments for one thing the later one counts. `None` where an argument
/// names a format of moves that there is not.
pub fn parse_args(args: &Vec<String>) -> (opts: Option<Opts>)
    ensures
        match opts {
            Some(o) => spec_parse_args(args@, args@.len() as int) == Some(o@),
            None => spec_parse_args(args@, args@.len() as int) is None,
        },
{
    let mut opts = Opts {
        verbose: false,
        output: Output::Text,
        move_format: MoveFormat::Traditional,
        engine_path: None,
    };
    let mut i: usize = 0;
    while i < args.len()
        invariant
            i <= args@.len(),
            spec_parse_args(args@, i as int) == Some(opts@),
        decreases args@.len() - i,
    {
        let a: &str = args[i].as_str();
        let chars: Vec<char> = to_chars(a);
        let n: usize = chars.len();
        assert(chars@.subrange(0, n as int) =~= a@);
        if text_is(&chars, 0, n, "--verbose") {
            opts.verbose = true;
        }
        if text_is(&chars, 0, n, "--output=json") {
            opts.output = Output::Json;
        }
        if has_prefix(&chars, 0, n, "--move-format=") {
            let k: usize = "--move-format=".unicode_len();
            assert(a@.skip(k as int) =~= chars@.subrange(k as int, n as int));
            match move_format_named(&chars, k, n) {
                Some(format) => {
                    opts.move_format = format;
                },
                None => {
                    proof {
                        assert(spec_parse_args(args@, i + 1) is None);
                        lemma_args_stay_refused(args@, i + 1, args@.len() as int);
                    }
                    return None;
                },
            }
        }
        if has_prefix(&chars, 0, n, "--engine-path=") {
            let k: usize = "--engine-path=".unicode_len();
            assert(a@.skip(k as int) =~= a@.subrange(k as int, n as int));
            opts.engine_path = Some(a.substring_char(k, n).to_owned());
        }
        i += 1;
    }
    Some(opts)
}

/// What an outside engine is told to make it solve a position that is
/// given in SFEN.
pub fn engine_script(sfen: &str) -> (script: String)
    ensures
        script@ == "setoption name USI_Hash value 128\nisready\nusinewgame\nposition sfen "@
            + sfen@ + "\ngo\n"@,
{
    let mut script: String =
        "setoption name USI_Hash value 128\nisready\nusinewgame\nposition sfen ".to_owned();
    script.append(sfen);
    script.append("\ngo\n");
    script
}

/// What an outside engine is told when it is no longer needed.
pub fn engine_farewell() -> (line: String)
    ensures
        line@ == "quit\n"@,
{
    "quit\n".to_owned()
}

/// What a line of an outside engine's answer says of the mate: `None`
/// where the line does not begin with `checkmate `, else what follows,
/// without the white space around it.
pub fn checkmate_reply(line: &str) -> (reply: Option<String>)
    ensures
        match reply {
            Some(r) => "checkmate "@.is_prefix_of(line@) && r@ == trimmed(
                line@.skip("checkmate "@.len() as int),
            ),
            None => !"checkmate "@.is_prefix_of(line@),
        },
{
    let chars: Vec<char> = to_chars(line);
    let n: usize = chars.len();
    assert(chars@.subrange(0, n as int) =~= line@);
    if !has_prefix(&chars, 0, n, "checkmate ") {
        return None;
    }
    let k: usize = "checkmate ".unicode_len();
    let bounds: (usize, usize) = trim_range(&chars, k, n);
    assert(line@.skip(k as int) =~= chars@.subrange(k as int, n as int));
    Some(line.substring_char(bounds.0, bounds.1).to_owned())
}

/// Whether an outside engine's answer says that there is no mate.
pub fn is_nomate(reply: &str) -> (none: bool)
    ensures
        none == (reply@ == "nomate"@),
{
    let chars: Vec<char> = to_chars(reply);
    assert(chars@.subrange(0, chars@.len() as int) =~= reply@);
    text_is(&chars, 0, chars.len(), "nomate")
}

/// A position in SFEN together with the moves of a mate sequence, as one
/// text in the notation of USI.
pub fn position_with_moves(sfen: &str, mate_sequence: &str) -> (text: String)
    ensures
        text@ == "sfen "@ + trimmed(sfen@) + " moves "@ + mate_sequence@,
{
    let chars: Vec<char> = to_chars(sfen);
    let n: usize = chars.len();
    assert(chars@.subrange(0, n as int) =~= sfen@);
    let bounds: (usize, usize) = trim_range(&chars, 0, n);
    let mut text: String = "sfen ".to_owned();
    text.append(sfen.substring_char(bounds.0, bounds.1));
    text.append(" moves ");
    text.append(mate_sequence);
    text
}

/// Whether a text ends with another.
pub open spec fn ends_with(s: Seq<char>, suffix: Seq<char>) -> bool {
    suffix.len() <= s.len() && s.subrange(s.len() - suffix.len(), s.len() as int) == suffix
}

/// Whether an address is that of a page of a problem: it begins with the
/// address of the problems and ends with `.html`.
pub fn is_problem_page(url: &str) -> (page: bool)
    ensures
        page == ("https://www.shogi.or.jp/tsume_shogi/"@.is_prefix_of(url@) && ends_with(
            url@,
            ".html"@,
        )),
{
    let chars: Vec<char> = to_chars(url);
    let n: usize = chars.len();
    assert(chars@.subrange(0, n as int) =~= url@);
    let k: usize = ".html".unicode_len();
    has_prefix(&chars, 0, n, "https://www.shogi.or.jp/tsume_shogi/") && k <= n && text_is(
        &chars,
        n - k,
        n,
        ".html",
    )
}

/// Whether an address is one of the web.
pub fn is_web_address(address: &str) -> (web: bool)
    ensures
        web == ("http://"@.is_prefix_of(address@) || "https://"@.is_prefix_of(address@)),
{
    let chars: Vec<char> = to_chars(address);
    let n: usize = chars.len();
    assert(chars@.subrange(0, n as int) =~= address@);
    has_prefix(&chars, 0, n, "http://") || has_prefix(&chars, 0, n, "https://")
}

/// The address of the record of a problem in the text of its page: from the
/// first place where the address of the records stands up to the end of the
/// first `.kif` from there on. `None` where one of the two is not in the
/// page.
pub fn problem_url(page: &str) -> (url: Option<String>)
    ensures
        match first_at(page@, 0, "https://www.shogi.or.jp/tsume_shogi/data/"@) {
            Some(x) => match first_at(page@, x, ".kif"@) {
                Some(y) => url matches Some(u) && u@ == page@.subrange(
                    x,
                    y + ".kif"@.len(),
                ),
                None => url is None,
            },
            None => url is None,
        },
{
    let chars: Vec<char> = to_chars(page);
    let x: usize = match find_text(&chars, 0, "https://www.shogi.or.jp/tsume_shogi/data/") {
        Some(x) => x,
        None => {
            return None;
        },
    };
    let y: usize = match find_text(&chars, x, ".kif") {
        Some(y) => y,
        None => {
            return None;
        },
    };
    let k: usize = ".kif".unicode_len();
    Some(page.substring_char(x, y + k).to_owned())
}

} // verus!
