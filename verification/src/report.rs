//! Lines for the user.

use vstd::prelude::*;

verus! {

/// One line for the user: on standard output or on standard error.
#[derive(Debug, Clone, PartialEq)]
pub enum Line {
    Out(String),
    Problem(String),
}

/// What a line says and where.
pub enum LineModel {
    Out(Seq<char>),
    Problem(Seq<char>),
}

impl Line {
    /// The line without its representation.
    pub open spec fn model(self) -> LineModel {
        match self {
            Line::Out(s) => LineModel::Out(s@),
            Line::Problem(s) => LineModel::Problem(s@),
        }
    }
}

/// A run of lines without their representation.
pub open spec fn lines_model(lines: Seq<Line>) -> Seq<LineModel> {
    lines.map_values(|l: Line| l.model())
}

/// Adds a line on standard output.
pub fn say(lines: &mut Vec<Line>, text: String)
    ensures
        lines_model(final(lines)@) == lines_model(old(lines)@).push(LineModel::Out(text@)),
{
    lines.push(Line::Out(text));
    proof {
        assert(lines_model(lines@) =~= lines_model(old(lines)@).push(LineModel::Out(text@)));
    }
}

/// Adds a line on standard error.
pub fn warn(lines: &mut Vec<Line>, text: String)
    ensures
        lines_model(final(lines)@) == lines_model(old(lines)@).push(LineModel::Problem(text@)),
{
    lines.push(Line::Problem(text));
    proof {
        assert(lines_model(lines@) =~= lines_model(old(lines)@).push(LineModel::Problem(text@)));
    }
}

/// No lines yet.
pub fn no_lines() -> (r: Vec<Line>)
    ensures
        lines_model(r@) == Seq::<LineModel>::empty(),
{
    let r: Vec<Line> = Vec::new();
    proof {
        assert(lines_model(r@) =~= Seq::<LineModel>::empty());
    }
    r
}

} // verus!
