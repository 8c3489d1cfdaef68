use vstd::prelude::*;

verus! {

#[derive(Debug)]
pub enum Expression {
    Constant(i64),
}

#[derive(Debug)]
pub enum Statement {
    Return(Expression),
}

#[derive(Debug)]
pub enum FunctionDefinition {
    Function { name: String, body: Statement },
}

#[derive(Debug)]
pub struct Program {
    pub function: FunctionDefinition,
}

/// A function definition with its name as a sequence of characters.
pub struct FunctionView {
    pub name: Seq<char>,
    pub body: Statement,
}

/// A program with the name of its function as a sequence of characters.
pub struct ProgramView {
    pub function: FunctionView,
}

impl View for FunctionDefinition {
    type V = FunctionView;

    open spec fn view(&self) -> FunctionView {
        FunctionView { name: self->name@, body: self->body }
    }
}

impl View for Program {
    type V = ProgramView;

    open spec fn view(&self) -> ProgramView {
        ProgramView { function: self.function@ }
    }
}

} // verus!
