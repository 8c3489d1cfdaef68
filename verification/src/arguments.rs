use vstd::prelude::*;

verus! {

/// How far the compiler is to run.
#[derive(Copy, Clone, PartialEq, Eq, PartialOrd, Ord, Debug, Structural)]
pub enum Mode {
    Lexer,
    Parse,
    CodeGen,
}

impl Mode {
    /// The mode that the three switches ask for: the first of them that is
    /// set, in the order lexer, parse, code generation; all stages where none is.
    pub open spec fn chosen(lexer: bool, parse: bool, codegen: bool) -> Mode {
        if lexer {
            Mode::Lexer
        } else if parse {
            Mode::Parse
        } else {
            Mode::CodeGen
        }
    }

    pub fn from_flags(lexer: bool, parse: bool, codegen: bool) -> (r: Mode)
        ensures
            r == Mode::chosen(lexer, parse, codegen),
    {
        if lexer {
            Mode::Lexer
        } else if parse {
            Mode::Parse
        } else if codegen {
            Mode::CodeGen
        } else {
            Mode::CodeGen
        }
    }
}

/// The file to compile and how far to go.
#[derive(Debug)]
pub struct Cli {
    pub filename: String,
    pub mode: Mode,
}

impl Cli {
    pub fn from_flags(filename: String, lexer: bool, parse: bool, codegen: bool) -> (r: Cli)
        ensures
            r.filename == filename,
            r.mode == Mode::chosen(lexer, parse, codegen),
    {
        Cli { filename, mode: Mode::from_flags(lexer, parse, codegen) }
    }
}

/// What the command line asks for.
pub struct Arguments {
    pub explain: bool,
    pub lex: bool,
    pub parse: bool,
    pub input: String,
}

impl Arguments {
    /// Settles which stage ends the run: parsing where no stage or both are
    /// asked for, lexing only where it alone is.
    pub fn settle(&mut self)
        ensures
            final(self).lex == (old(self).lex && !old(self).parse),
            final(self).parse == (old(self).parse || !old(self).lex),
            final(self).explain == old(self).explain,
            final(self).input == old(self).input,
    {
        if !self.lex && !self.parse {
            self.parse = true;
        }
        if self.lex && self.parse {
            self.lex = false;
        }
    }

    /// The mode of the settled arguments.
    pub fn mode(&self) -> (r: Mode)
        ensures
            r == (if self.lex && !self.parse {
                Mode::Lexer
            } else {
                Mode::Parse
            }),
    {
        if self.lex && !self.parse {
            Mode::Lexer
        } else {
            Mode::Parse
        }
    }
}

} // verus!
