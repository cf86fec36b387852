use vstd::prelude::*;

use crate::text::{digits_of, nat_to_string};

verus! {

/// The errors that evaluation reports.
#[derive(Debug, PartialEq)]
#[allow(inconsistent_fields)]
pub enum InterpError {
    /// Malformed syntax tree.
    ParseError { message: String },
    /// A function called with the wrong number of arguments.
    ArgumentError { func: String, expected: usize, got: usize },
    /// A name that is bound in no enclosing frame.
    UndefinedError { symbol: String },
    /// An operand of the wrong kind.
    TypeError { expected: String, found: String },
    /// Arithmetic overflow, division by zero, an index out of range, or a call nested too deep.
    RuntimeError { message: String },
}

/// The mathematical model of an evaluation error.
pub enum Fault {
    Parse(Seq<char>),
    Argument(Seq<char>, usize, usize),
    Undefined(Seq<char>),
    Type(Seq<char>, Seq<char>),
    Runtime(Seq<char>),
}

impl View for InterpError {
    type V = Fault;

    open spec fn view(&self) -> Fault {
        match self {
            InterpError::ParseError { message } => Fault::Parse(message@),
            InterpError::ArgumentError { func, expected, got } => Fault::Argument(
                func@,
                *expected,
                *got,
            ),
            InterpError::UndefinedError { symbol } => Fault::Undefined(symbol@),
            InterpError::TypeError { expected, found } => Fault::Type(expected@, found@),
            InterpError::RuntimeError { message } => Fault::Runtime(message@),
        }
    }
}

/// The kind of a syntax error.
#[derive(Debug, Clone, Copy, PartialEq, Eq, Structural)]
pub enum ParseErrorType {
    /// A block, or an expression within one, was expected.
    BLOCK,
    /// A `let` form is malformed.
    LET,
    /// Some other token came where it cannot stand.
    UNEXPECTED,
}

/// A secondary span of a diagnostic: a byte offset, a length and a label.
#[derive(Debug)]
pub struct LabeledSpan {
    pub offset: usize,
    pub len: usize,
    pub label: String,
}

/// A syntax error, with what an end-user diagnostic needs: the source, a labelled primary
/// span, secondary spans and an optional help text.
#[derive(Debug)]
pub struct ParseError {
    pub source_name: String,
    pub src: String,
    pub label: String,
    pub error_type: ParseErrorType,
    /// Byte offset and length of the primary span.
    pub main_span: (usize, usize),
    pub other_spans: Vec<LabeledSpan>,
    pub help: Option<String>,
}

impl ParseError {
    pub fn new(error_type: ParseErrorType, source_name: &str, src: &str, span: (usize, usize), label: &str) -> (r: ParseError)
        ensures
            r.error_type == error_type,
            r.source_name@ == source_name@,
            r.src@ == src@,
            r.main_span == span,
            r.label@ == label@,
            r.other_spans@.len() == 0,
            r.help is None,
    {
        ParseError {
            source_name: source_name.to_string(),
            src: src.to_string(),
            label: label.to_string(),
            error_type,
            main_span: span,
            other_spans: Vec::new(),
            help: None,
        }
    }

    pub fn new_full(
        error_type: ParseErrorType,
        source_name: &str,
        src: &str,
        span: (usize, usize),
        label: &str,
        help: Option<String>,
        other_spans: Vec<LabeledSpan>,
    ) -> (r: ParseError)
        ensures
            r.error_type == error_type,
            r.source_name@ == source_name@,
            r.src@ == src@,
            r.main_span == span,
            r.label@ == label@,
            r.other_spans == other_spans,
            r.help == help,
    {
        ParseError {
            source_name: source_name.to_string(),
            src: src.to_string(),
            label: label.to_string(),
            error_type,
            main_span: span,
            other_spans,
            help,
        }
    }

    pub fn change_label(&mut self, new_label: &str)
        ensures
            final(self).label@ == new_label@,
            final(self).error_type == old(self).error_type,
            final(self).main_span == old(self).main_span,
            final(self).other_spans == old(self).other_spans,
            final(self).help == old(self).help,
            final(self).source_name == old(self).source_name,
            final(self).src == old(self).src,
    {
        self.label = new_label.to_string();
    }

    /// Moves the spans of `additional_spans` to the end of the secondary spans.
    pub fn add_spans(&mut self, additional_spans: &mut Vec<LabeledSpan>)
        ensures
            final(self).other_spans@ == old(self).other_spans@ + old(additional_spans)@,
            final(additional_spans)@.len() == 0,
            final(self).label == old(self).label,
            final(self).error_type == old(self).error_type,
            final(self).main_span == old(self).main_span,
            final(self).help == old(self).help,
            final(self).source_name == old(self).source_name,
            final(self).src == old(self).src,
    {
        self.other_spans.append(additional_spans);
    }

    pub fn add_help(&mut self, help: &str)
        ensures
            final(self).help matches Some(h) && h@ == help@,
            final(self).label == old(self).label,
            final(self).error_type == old(self).error_type,
            final(self).main_span == old(self).main_span,
            final(self).other_spans == old(self).other_spans,
            final(self).source_name == old(self).source_name,
            final(self).src == old(self).src,
    {
        self.help = Some(help.to_string());
    }
}

/// The message that describes an evaluation error.
pub open spec fn fault_text(f: Fault) -> Seq<char> {
    match f {
        Fault::Parse(m) => "Parse error: "@ + m,
        Fault::Argument(func, expected, got) => "Incorrect number of arguments supplied to function '"@ + func
            + "': expected "@ + digits_of(expected as nat) + ", got "@ + digits_of(got as nat),
        Fault::Undefined(s) => "Undefined symbol '"@ + s + "'"@,
        Fault::Type(expected, found) => "Type error: expected "@ + expected + ", found "@ + found,
        Fault::Runtime(m) => "Runtime error: "@ + m,
    }
}

impl InterpError {
    /// The message that describes this error.
    pub fn message(&self) -> (r: String)
        ensures
            r@ == fault_text(self@),
    {
        let mut out = String::new();
        match self {
            InterpError::ParseError { message } => {
                out.append("Parse error: ");
                out.append(message.as_str());
            },
            InterpError::ArgumentError { func, expected, got } => {
                out.append("Incorrect number of arguments supplied to function '");
                out.append(func.as_str());
                out.append("': expected ");
                out.append(nat_to_string(*expected as u64).as_str());
                out.append(", got ");
                out.append(nat_to_string(*got as u64).as_str());
            },
            InterpError::UndefinedError { symbol } => {
                out.append("Undefined symbol '");
                out.append(symbol.as_str());
                out.append("'");
            },
            InterpError::TypeError { expected, found } => {
                out.append("Type error: expected ");
                out.append(expected.as_str());
                out.append(", found ");
                out.append(found.as_str());
            },
            InterpError::RuntimeError { message } => {
                out.append("Runtime error: ");
                out.append(message.as_str());
            },
        }
        proof {
            assert(out@ =~= fault_text(self@));
        }
        out
    }
}

} // verus!
