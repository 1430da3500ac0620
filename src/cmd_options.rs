//! Command-line options of the interpreter program.

use vstd::prelude::*;
use vstd::string::StringExecFns;

verus! {

/// Where a piece of source comes from: a file to read, or the text itself.
#[derive(Debug, PartialEq)]
pub enum CodeSource {
    File(String),
    String(String),
}

pub enum SourceView {
    File(Seq<char>),
    Text(Seq<char>),
}

impl View for CodeSource {
    type V = SourceView;

    open spec fn view(&self) -> SourceView {
        match self {
            CodeSource::File(s) => SourceView::File(s@),
            CodeSource::String(s) => SourceView::Text(s@),
        }
    }
}

/// The sources to run, in order, and whether to print each result.
#[derive(Debug, PartialEq)]
pub struct CmdOptions {
    pub code_sources: Vec<CodeSource>,
    pub print_res: bool,
}

/// What an argument means where an option is expected.
pub enum Flag {
    /// `-i`, `--input`, `-f` or `--file`: the next argument names a file.
    File,
    /// `-e` or `--eval`: the next argument is source text.
    Text,
    /// `-p` or `--print-res`.
    Print,
    /// Anything else: a file name.
    Other,
}

pub open spec fn flag_of(a: Seq<char>) -> Flag {
    if a == seq!['-', 'i'] || a == seq!['-', '-', 'i', 'n', 'p', 'u', 't'] || a == seq!['-', 'f']
        || a == seq!['-', '-', 'f', 'i', 'l', 'e'] {
        Flag::File
    } else if a == seq!['-', 'e'] || a == seq!['-', '-', 'e', 'v', 'a', 'l'] {
        Flag::Text
    } else if a == seq!['-', 'p'] || a == seq!['-', '-', 'p', 'r', 'i', 'n', 't', '-', 'r', 'e', 's'] {
        Flag::Print
    } else {
        Flag::Other
    }
}

/// The options read from `args`, and what the next argument is expected to
/// be: 0 an option, 1 a file name, 2 source text.
pub open spec fn read_options(args: Seq<Seq<char>>) -> (Seq<SourceView>, bool, int)
    decreases args.len(),
{
    if args.len() == 0 {
        (Seq::empty(), false, 0)
    } else {
        let (sources, print, mode) = read_options(args.drop_last());
        let a = args.last();
        if mode == 1 {
            (sources.push(SourceView::File(a)), print, 0)
        } else if mode == 2 {
            (sources.push(SourceView::Text(a)), print, 0)
        } else {
            match flag_of(a) {
                Flag::File => (sources, print, 1),
                Flag::Text => (sources, print, 2),
                Flag::Print => (sources, true, 0),
                Flag::Other => (sources.push(SourceView::File(a)), print, 0),
            }
        }
    }
}

fn is_literal(a: &String, w: &str) -> (r: bool)
    ensures
        r == (a@ == w@),
{
    *a == String::from_str(w)
}

fn flag(a: &String) -> (r: Flag)
    ensures
        r == flag_of(a@),
{
    proof {
        reveal_strlit("-i");
        reveal_strlit("--input");
        reveal_strlit("-f");
        reveal_strlit("--file");
        reveal_strlit("-e");
        reveal_strlit("--eval");
        reveal_strlit("-p");
        reveal_strlit("--print-res");
        assert("-i"@ =~= seq!['-', 'i']);
        assert("--input"@ =~= seq!['-', '-', 'i', 'n', 'p', 'u', 't']);
        assert("-f"@ =~= seq!['-', 'f']);
        assert("--file"@ =~= seq!['-', '-', 'f', 'i', 'l', 'e']);
        assert("-e"@ =~= seq!['-', 'e']);
        assert("--eval"@ =~= seq!['-', '-', 'e', 'v', 'a', 'l']);
        assert("-p"@ =~= seq!['-', 'p']);
        assert("--print-res"@ =~= seq!['-', '-', 'p', 'r', 'i', 'n', 't', '-', 'r', 'e', 's']);
    }
    if is_literal(a, "-i") || is_literal(a, "--input") || is_literal(a, "-f") || is_literal(a, "--file") {
        Flag::File
    } else if is_literal(a, "-e") || is_literal(a, "--eval") {
        Flag::Text
    } else if is_literal(a, "-p") || is_literal(a, "--print-res") {
        Flag::Print
    } else {
        Flag::Other
    }
}

impl CmdOptions {
    pub open spec fn sources(&self) -> Seq<SourceView> {
        self.code_sources@.map_values(|c: CodeSource| c@)
    }

    /// Reads the arguments (without the program name). An option that
    /// expects a value and comes last is ignored. Never fails.
    pub fn parse(args: Vec<String>) -> (r: Result<CmdOptions, String>)
        ensures
            r is Ok,
            r->Ok_0.sources() == read_options(args@.map_values(|a: String| a@)).0,
            r->Ok_0.print_res == read_options(args@.map_values(|a: String| a@)).1,
    {
        let ghost views = args@.map_values(|a: String| a@);
        let mut code_sources: Vec<CodeSource> = Vec::new();
        let mut print_res = false;
        let mut mode: u8 = 0;
        let mut i: usize = 0;
        while i < args.len()
            invariant
                i <= args@.len(),
                views == args@.map_values(|a: String| a@),
                read_options(views.subrange(0, i as int)) == (
                    code_sources@.map_values(|c: CodeSource| c@),
                    print_res,
                    mode as int,
                ),
            decreases args@.len() - i,
        {
            let arg = &args[i];
            proof {
                let p = views.subrange(0, i + 1);
                assert(p.drop_last() =~= views.subrange(0, i as int));
                assert(p.last() == arg@);
            }
            let ghost before = code_sources@;
            if mode == 1 {
                code_sources.push(CodeSource::File(arg.clone()));
                mode = 0;
            } else if mode == 2 {
                code_sources.push(CodeSource::String(arg.clone()));
                mode = 0;
            } else {
                match flag(arg) {
                    Flag::File => {
                        mode = 1;
                    },
                    Flag::Text => {
                        mode = 2;
                    },
                    Flag::Print => {
                        print_res = true;
                    },
                    Flag::Other => {
                        code_sources.push(CodeSource::File(arg.clone()));
                    },
                }
            }
            assert(code_sources@.map_values(|c: CodeSource| c@) =~= read_options(
                views.subrange(0, i + 1),
            ).0);
            i += 1;
        }
        assert(views.subrange(0, args@.len() as int) =~= views);
        Ok(CmdOptions { code_sources, print_res })
    }

    pub fn should_print_res(&self) -> (r: bool)
        ensures
            r == self.print_res,
    {
        self.print_res
    }

    pub fn get_code_sources(&self) -> (r: &Vec<CodeSource>)
        ensures
            r == self.code_sources,
    {
        &self.code_sources
    }
}

} // verus!
