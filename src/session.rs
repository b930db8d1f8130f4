//! A session: one interpreter that runs successive pieces of source text.
use vstd::prelude::*;
use crate::interpret::{
    ArithOp, Env, Interpreter, RuntimeError, Value, ValueView, run_program, sound_numerics,
    view_values,
};
use crate::parse::{ParseError, Parser, parse_tokens};
use crate::scanner::{Scanner, lemma_scan_from_ends_with_eof, scan, view_tokens};

verus! {

/// Why running a piece of source text failed.
#[derive(Clone, Copy, Debug, PartialEq, Eq, Structural)]
pub enum LoxError {
    /// The text is not a program; nothing of it ran.
    Parse(ParseError),
    /// A statement failed; the statements before it ran.
    Runtime(RuntimeError),
}

/// The state that lives across runs: the interpreter and its variable store.
pub struct RustLox<L, A> {
    interpreter: Interpreter<L, A>,
}

impl<L: Fn(String) -> u64, A: Fn(ArithOp, u64, u64) -> u64> RustLox<L, A> {
    pub closed spec fn wf(&self) -> bool {
        self.interpreter.wf()
    }

    /// The variables of the session.
    pub closed spec fn env(&self) -> Env {
        self.interpreter.env()
    }

    /// The interpreter of the session.
    pub closed spec fn interpreter(&self) -> &Interpreter<L, A> {
        &self.interpreter
    }

    pub fn new(literal: L, arith: A) -> (r: Self)
        requires
            sound_numerics(literal, arith),
        ensures
            r.wf(),
            r.env() == Map::<Seq<char>, ValueView>::empty(),
    {
        RustLox { interpreter: Interpreter::new(literal, arith) }
    }

    /// Scans, parses and runs `lines`; the values printed are pushed onto `out`.
    pub fn run(&mut self, lines: &str, out: &mut Vec<Value>) -> (r: Result<(), LoxError>)
        requires
            old(self).wf(),
            lines@.len() < usize::MAX,
        ensures
            final(self).wf(),
            final(self).interpreter().same_numerics(old(self).interpreter()),
            match parse_tokens(scan(lines@)) {
                Err(e) => {
                    &&& r == Err::<(), LoxError>(LoxError::Parse(e))
                    &&& final(self).env() == old(self).env()
                    &&& final(out)@ == old(out)@
                },
                Ok(program) => {
                    let (env, printed, res) = run_program(
                        old(self).interpreter().literal_fn(),
                        old(self).interpreter().arith_fn(),
                        old(self).env(),
                        program,
                    );
                    &&& final(self).env() == env
                    &&& view_values(final(out)@) == view_values(old(out)@) + printed
                    &&& match res {
                        Ok(()) => r == Ok::<(), LoxError>(()),
                        Err(x) => r == Err::<(), LoxError>(LoxError::Runtime(x)),
                    }
                },
            },
    {
        let this_scanner = Scanner::new(lines);
        let scanned_tokens = this_scanner.scan_tokens();
        proof {
            lemma_scan_from_ends_with_eof(lines@, 0, 1);
            assert(view_tokens(scanned_tokens@).len() == scanned_tokens@.len());
            assert(view_tokens(scanned_tokens@).last() == scanned_tokens@.last()@);
        }
        let mut this_parser = Parser::new(scanned_tokens);
        let program = match this_parser.parse() {
            Ok(p) => p,
            Err(e) => {
                proof {
                    self.interpreter.lemma_same_numerics_refl();
                }
                return Err(LoxError::Parse(e));
            },
        };
        match self.interpreter.interpret(program, out) {
            Ok(()) => Ok(()),
            Err(x) => Err(LoxError::Runtime(x)),
        }
    }
}

} // verus!
