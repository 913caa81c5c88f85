//! Error types for configuration parsing, evaluation and argument handling.
//!
//! Every failure carries the offending fragment, so a caller can report
//! which part of the configuration or input was at fault. The stage says
//! where in the pipeline the failure arose.

use vstd::prelude::*;

verus! {

/// The stage of the pipeline where an error arose.
#[derive(Debug, Clone, Copy, PartialEq, Eq, Structural)]
pub enum ErrorStages {
    /// Argument handling.
    Cli,
    /// Reading the output configuration.
    ConfigParsing,
    /// Reading a conditional clause of the configuration.
    ConfigConditionParsing,
    /// Evaluating a conditional clause against a row.
    ConfigConditionEvaluating,
    /// Reading a filter chain of the configuration.
    ConfigFilterParsing,
    /// Turning an input row into output rows.
    Process,
    /// Reading or writing files.
    Io,
}

/// The mathematical content of a [`ConfigError`].
pub enum ConfigErrV {
    ReplaceUsage(Seq<char>),
    AppendUsage(Seq<char>),
    PrependUsage(Seq<char>),
    SplitUsage(Seq<char>),
    SplitIndex(Seq<char>),
    SubStringUsage(Seq<char>),
    SubStringNumber(Seq<char>),
    CellNumberZero(Seq<char>),
    InvalidCellNumber(Seq<char>),
    ConditionStart(Seq<char>),
    ConditionEnd(Seq<char>),
    ConditionNotFound(Seq<char>),
    ConditionItemNotFound(Seq<char>),
    ThenItemNotFound(Seq<char>),
    NeedleMissing(Seq<char>),
    ComparisonMissing(Seq<char>),
    ModuloUsage(Seq<char>),
    ModuloDivisor(Seq<char>),
    ModuloRemainder(Seq<char>),
    UnknownOperator(Seq<char>),
}

/// A fault in the configuration text, carrying the offending fragment.
#[derive(Debug, Clone, PartialEq, Eq)]
pub enum ConfigError {
    /// A REPLACE filter without exactly two arguments.
    ReplaceUsage(String),
    /// An APPEND filter without exactly one argument.
    AppendUsage(String),
    /// A PREPEND filter without exactly one argument.
    PrependUsage(String),
    /// A SPLIT filter without exactly two arguments.
    SplitUsage(String),
    /// A SPLIT index that is not an unsigned integer.
    SplitIndex(String),
    /// A SUB_STRING filter without one or two arguments.
    SubStringUsage(String),
    /// A SUB_STRING bound that is not an unsigned integer.
    SubStringNumber(String),
    /// A cell reference numbered zero.
    CellNumberZero(String),
    /// A cell reference whose number cannot be read.
    InvalidCellNumber(String),
    /// A condition that does not start with a cell reference.
    ConditionStart(String),
    /// A condition that does not end with a then or else clause.
    ConditionEnd(String),
    /// A condition with no operator text.
    ConditionNotFound(String),
    /// A condition with no subject cell reference.
    ConditionItemNotFound(String),
    /// A condition with no then clause.
    ThenItemNotFound(String),
    /// A text operator that is missing its pipe-delimited needle.
    NeedleMissing(String),
    /// A comparison operator with no operand after it.
    ComparisonMissing(String),
    /// A modulo operator without divisor and remainder.
    ModuloUsage(String),
    /// A modulo divisor that is not numeric.
    ModuloDivisor(String),
    /// A modulo remainder that is not numeric.
    ModuloRemainder(String),
    /// An operator that is not part of the language.
    UnknownOperator(String),
}

impl View for ConfigError {
    type V = ConfigErrV;

    open spec fn view(&self) -> ConfigErrV {
        match self {
            ConfigError::ReplaceUsage(s) => ConfigErrV::ReplaceUsage(s@),
            ConfigError::AppendUsage(s) => ConfigErrV::AppendUsage(s@),
            ConfigError::PrependUsage(s) => ConfigErrV::PrependUsage(s@),
            ConfigError::SplitUsage(s) => ConfigErrV::SplitUsage(s@),
            ConfigError::SplitIndex(s) => ConfigErrV::SplitIndex(s@),
            ConfigError::SubStringUsage(s) => ConfigErrV::SubStringUsage(s@),
            ConfigError::SubStringNumber(s) => ConfigErrV::SubStringNumber(s@),
            ConfigError::CellNumberZero(s) => ConfigErrV::CellNumberZero(s@),
            ConfigError::InvalidCellNumber(s) => ConfigErrV::InvalidCellNumber(s@),
            ConfigError::ConditionStart(s) => ConfigErrV::ConditionStart(s@),
            ConfigError::ConditionEnd(s) => ConfigErrV::ConditionEnd(s@),
            ConfigError::ConditionNotFound(s) => ConfigErrV::ConditionNotFound(s@),
            ConfigError::ConditionItemNotFound(s) => ConfigErrV::ConditionItemNotFound(s@),
            ConfigError::ThenItemNotFound(s) => ConfigErrV::ThenItemNotFound(s@),
            ConfigError::NeedleMissing(s) => ConfigErrV::NeedleMissing(s@),
            ConfigError::ComparisonMissing(s) => ConfigErrV::ComparisonMissing(s@),
            ConfigError::ModuloUsage(s) => ConfigErrV::ModuloUsage(s@),
            ConfigError::ModuloDivisor(s) => ConfigErrV::ModuloDivisor(s@),
            ConfigError::ModuloRemainder(s) => ConfigErrV::ModuloRemainder(s@),
            ConfigError::UnknownOperator(s) => ConfigErrV::UnknownOperator(s@),
        }
    }
}

impl ConfigError {
    /// The stage of the pipeline where this error arose.
    pub fn stage(&self) -> (r: ErrorStages)
        ensures
            r == self.spec_stage(),
    {
        match self {
            ConfigError::ReplaceUsage(_) => ErrorStages::ConfigFilterParsing,
            ConfigError::AppendUsage(_) => ErrorStages::ConfigFilterParsing,
            ConfigError::PrependUsage(_) => ErrorStages::ConfigFilterParsing,
            ConfigError::SplitUsage(_) => ErrorStages::ConfigFilterParsing,
            ConfigError::SplitIndex(_) => ErrorStages::ConfigFilterParsing,
            ConfigError::SubStringUsage(_) => ErrorStages::ConfigFilterParsing,
            ConfigError::SubStringNumber(_) => ErrorStages::ConfigFilterParsing,
            ConfigError::CellNumberZero(_) => ErrorStages::ConfigParsing,
            ConfigError::InvalidCellNumber(_) => ErrorStages::ConfigParsing,
            _ => ErrorStages::ConfigConditionParsing,
        }
    }

    /// The stage of the pipeline where this error arose.
    pub open spec fn spec_stage(&self) -> ErrorStages {
        match self {
            ConfigError::ReplaceUsage(_) => ErrorStages::ConfigFilterParsing,
            ConfigError::AppendUsage(_) => ErrorStages::ConfigFilterParsing,
            ConfigError::PrependUsage(_) => ErrorStages::ConfigFilterParsing,
            ConfigError::SplitUsage(_) => ErrorStages::ConfigFilterParsing,
            ConfigError::SplitIndex(_) => ErrorStages::ConfigFilterParsing,
            ConfigError::SubStringUsage(_) => ErrorStages::ConfigFilterParsing,
            ConfigError::SubStringNumber(_) => ErrorStages::ConfigFilterParsing,
            ConfigError::CellNumberZero(_) => ErrorStages::ConfigParsing,
            ConfigError::InvalidCellNumber(_) => ErrorStages::ConfigParsing,
            _ => ErrorStages::ConfigConditionParsing,
        }
    }

    /// The offending fragment of configuration text.
    pub fn fragment(&self) -> (r: &String)
        ensures
            r@ == self.spec_fragment(),
    {
        match self {
            ConfigError::ReplaceUsage(s) => s,
            ConfigError::AppendUsage(s) => s,
            ConfigError::PrependUsage(s) => s,
            ConfigError::SplitUsage(s) => s,
            ConfigError::SplitIndex(s) => s,
            ConfigError::SubStringUsage(s) => s,
            ConfigError::SubStringNumber(s) => s,
            ConfigError::CellNumberZero(s) => s,
            ConfigError::InvalidCellNumber(s) => s,
            ConfigError::ConditionStart(s) => s,
            ConfigError::ConditionEnd(s) => s,
            ConfigError::ConditionNotFound(s) => s,
            ConfigError::ConditionItemNotFound(s) => s,
            ConfigError::ThenItemNotFound(s) => s,
            ConfigError::NeedleMissing(s) => s,
            ConfigError::ComparisonMissing(s) => s,
            ConfigError::ModuloUsage(s) => s,
            ConfigError::ModuloDivisor(s) => s,
            ConfigError::ModuloRemainder(s) => s,
            ConfigError::UnknownOperator(s) => s,
        }
    }

    /// The offending fragment of configuration text.
    pub open spec fn spec_fragment(&self) -> Seq<char> {
        match self {
            ConfigError::ReplaceUsage(s) => s@,
            ConfigError::AppendUsage(s) => s@,
            ConfigError::PrependUsage(s) => s@,
            ConfigError::SplitUsage(s) => s@,
            ConfigError::SplitIndex(s) => s@,
            ConfigError::SubStringUsage(s) => s@,
            ConfigError::SubStringNumber(s) => s@,
            ConfigError::CellNumberZero(s) => s@,
            ConfigError::InvalidCellNumber(s) => s@,
            ConfigError::ConditionStart(s) => s@,
            ConfigError::ConditionEnd(s) => s@,
            ConfigError::ConditionNotFound(s) => s@,
            ConfigError::ConditionItemNotFound(s) => s@,
            ConfigError::ThenItemNotFound(s) => s@,
            ConfigError::NeedleMissing(s) => s@,
            ConfigError::ComparisonMissing(s) => s@,
            ConfigError::ModuloUsage(s) => s@,
            ConfigError::ModuloDivisor(s) => s@,
            ConfigError::ModuloRemainder(s) => s@,
            ConfigError::UnknownOperator(s) => s@,
        }
    }
}

/// The mathematical content of an [`EvalError`].
pub enum EvalErrV {
    CellNotFound(nat),
    NestedIf,
    GreaterLeftNotNumeric(Seq<char>),
    GreaterRightNotNumeric(Seq<char>),
    LessLeftNotNumeric(Seq<char>),
    LessRightNotNumeric(Seq<char>),
    ModuloNotNumeric(Seq<char>),
}

/// A fault while evaluating a parsed configuration against an input row.
#[derive(Debug, Clone, PartialEq, Eq)]
pub enum EvalError {
    /// A cell reference beyond the end of the input row, with the
    /// zero-based index that was asked for.
    CellNotFound(usize),
    /// A conditional used as the operand of another condition.
    NestedIf,
    /// A greater-than subject that is not numeric.
    GreaterLeftNotNumeric(String),
    /// A greater-than operand that is not numeric.
    GreaterRightNotNumeric(String),
    /// A less-than subject that is not numeric.
    LessLeftNotNumeric(String),
    /// A less-than operand that is not numeric.
    LessRightNotNumeric(String),
    /// A modulo subject that is not numeric.
    ModuloNotNumeric(String),
}

impl View for EvalError {
    type V = EvalErrV;

    open spec fn view(&self) -> EvalErrV {
        match self {
            EvalError::CellNotFound(i) => EvalErrV::CellNotFound(*i as nat),
            EvalError::NestedIf => EvalErrV::NestedIf,
            EvalError::GreaterLeftNotNumeric(s) => EvalErrV::GreaterLeftNotNumeric(s@),
            EvalError::GreaterRightNotNumeric(s) => EvalErrV::GreaterRightNotNumeric(s@),
            EvalError::LessLeftNotNumeric(s) => EvalErrV::LessLeftNotNumeric(s@),
            EvalError::LessRightNotNumeric(s) => EvalErrV::LessRightNotNumeric(s@),
            EvalError::ModuloNotNumeric(s) => EvalErrV::ModuloNotNumeric(s@),
        }
    }
}

impl EvalError {
    /// The stage of the pipeline where this error arose.
    pub fn stage(&self) -> (r: ErrorStages)
        ensures
            r == ErrorStages::ConfigConditionEvaluating,
    {
        ErrorStages::ConfigConditionEvaluating
    }
}

/// The mathematical content of a [`CliError`].
pub enum CliErrV {
    MissingValue(Seq<char>),
    MissingInput,
    MissingOutput,
    MissingConfig,
}

/// A fault in the command-line arguments.
#[derive(Debug, Clone, PartialEq, Eq)]
pub enum CliError {
    /// A flag that expects a value was last on the line.
    MissingValue(String),
    /// No input file was named.
    MissingInput,
    /// No output file was named.
    MissingOutput,
    /// No configuration file was named.
    MissingConfig,
}

impl View for CliError {
    type V = CliErrV;

    open spec fn view(&self) -> CliErrV {
        match self {
            CliError::MissingValue(s) => CliErrV::MissingValue(s@),
            CliError::MissingInput => CliErrV::MissingInput,
            CliError::MissingOutput => CliErrV::MissingOutput,
            CliError::MissingConfig => CliErrV::MissingConfig,
        }
    }
}

impl CliError {
    /// The stage of the pipeline where this error arose.
    pub fn stage(&self) -> (r: ErrorStages)
        ensures
            r == ErrorStages::Cli,
    {
        ErrorStages::Cli
    }
}

} // verus!
