use vstd::prelude::*;

verus! {

/// The closed vocabulary of node and token kinds for the grammar.
///
/// Every kind has a raw numeric code, assigned in declaration order
/// starting from zero; `EndOfFile` carries the highest legal code,
/// which bounds the kind space from above.
#[derive(Debug, Clone, Copy, PartialEq, Eq, Hash, Structural)]
pub enum SyntaxKind {
    Whitespace,
    LineComment,
    BlockComment,
    Module,
    ModuleHeader,
    ModuleKw,
    WhereKw,
    ExportList,
    ImportList,
    ImportDeclaration,
    ImportKw,
    AsKw,
    ModuleName,
    QualifiedName,
    QualifiedPrefix,
    Name,
    NameRef,
    Upper,
    Lower,
    Hole,
    Operator,
    At,
    Equal,
    Period,
    Period2,
    Colon,
    Colon2,
    LeftArrow,
    RightArrow,
    LeftThickArrow,
    RightThickArrow,
    LeftParenthesis,
    RightParenthesis,
    LeftBracket,
    RightBracket,
    LeftSquare,
    RightSquare,
    Tick,
    Comma,
    Pipe,
    Minus,
    AdoExpression,
    AdoKw,
    QualifiedAdo,
    DoExpression,
    DoKw,
    QualifiedDo,
    ApplicationExpression,
    TermArgument,
    TypeArgument,
    ConstructorExpression,
    LiteralExpression,
    IfThenElseExpression,
    IfKw,
    ThenKw,
    ElseKw,
    InfixChain,
    NegateExpression,
    OperatorChain,
    OperatorNameExpression,
    ParenthesizedExpression,
    TernaryExpression,
    TypedExpression,
    VariableExpression,
    LiteralChar,
    LiteralString,
    LiteralRawString,
    LiteralInteger,
    LiteralNumber,
    LiteralTrue,
    LiteralFalse,
    ConstructorType,
    ForallType,
    TypeVariableBinding,
    KindedType,
    VariableType,
    Pattern,
    ValueDeclaration,
    AnnotationDeclaration,
    DataDeclaration,
    DataKw,
    NewtypeDeclaration,
    NewtypeKw,
    ForallKw,
    TypeDeclaration,
    TypeKw,
    ClassDeclaration,
    ClassKw,
    InstanceDeclaration,
    InstanceKw,
    DeriveInstanceDeclaration,
    DeriveKw,
    ForeignDataDeclaration,
    ForeignValueDeclaration,
    ForeignKw,
    FixityDeclaration,
    InfixlKw,
    InfixrKw,
    InfixKw,
    Labeled,
    Prefixed,
    Wrapped,
    OneOrMore,
    Pair,
    Sentinel,
    Error,
    EndOfFile,
}

/// The highest raw code that names a kind: the code of `EndOfFile`.
pub const SENTINEL_CODE: u16 = 106;

/// The raw numeric code of a kind: its position in the declaration order.
pub open spec fn code_of(k: SyntaxKind) -> u16 {
    match k {
        SyntaxKind::Whitespace => 0,
        SyntaxKind::LineComment => 1,
        SyntaxKind::BlockComment => 2,
        SyntaxKind::Module => 3,
        SyntaxKind::ModuleHeader => 4,
        SyntaxKind::ModuleKw => 5,
        SyntaxKind::WhereKw => 6,
        SyntaxKind::ExportList => 7,
        SyntaxKind::ImportList => 8,
        SyntaxKind::ImportDeclaration => 9,
        SyntaxKind::ImportKw => 10,
        SyntaxKind::AsKw => 11,
        SyntaxKind::ModuleName => 12,
        SyntaxKind::QualifiedName => 13,
        SyntaxKind::QualifiedPrefix => 14,
        SyntaxKind::Name => 15,
        SyntaxKind::NameRef => 16,
        SyntaxKind::Upper => 17,
        SyntaxKind::Lower => 18,
        SyntaxKind::Hole => 19,
        SyntaxKind::Operator => 20,
        SyntaxKind::At => 21,
        SyntaxKind::Equal => 22,
        SyntaxKind::Period => 23,
        SyntaxKind::Period2 => 24,
        SyntaxKind::Colon => 25,
        SyntaxKind::Colon2 => 26,
        SyntaxKind::LeftArrow => 27,
        SyntaxKind::RightArrow => 28,
        SyntaxKind::LeftThickArrow => 29,
        SyntaxKind::RightThickArrow => 30,
        SyntaxKind::LeftParenthesis => 31,
        SyntaxKind::RightParenthesis => 32,
        SyntaxKind::LeftBracket => 33,
        SyntaxKind::RightBracket => 34,
        SyntaxKind::LeftSquare => 35,
        SyntaxKind::RightSquare => 36,
        SyntaxKind::Tick => 37,
        SyntaxKind::Comma => 38,
        SyntaxKind::Pipe => 39,
        SyntaxKind::Minus => 40,
        SyntaxKind::AdoExpression => 41,
        SyntaxKind::AdoKw => 42,
        SyntaxKind::QualifiedAdo => 43,
        SyntaxKind::DoExpression => 44,
        SyntaxKind::DoKw => 45,
        SyntaxKind::QualifiedDo => 46,
        SyntaxKind::ApplicationExpression => 47,
        SyntaxKind::TermArgument => 48,
        SyntaxKind::TypeArgument => 49,
        SyntaxKind::ConstructorExpression => 50,
        SyntaxKind::LiteralExpression => 51,
        SyntaxKind::IfThenElseExpression => 52,
        SyntaxKind::IfKw => 53,
        SyntaxKind::ThenKw => 54,
        SyntaxKind::ElseKw => 55,
        SyntaxKind::InfixChain => 56,
        SyntaxKind::NegateExpression => 57,
        SyntaxKind::OperatorChain => 58,
        SyntaxKind::OperatorNameExpression => 59,
        SyntaxKind::ParenthesizedExpression => 60,
        SyntaxKind::TernaryExpression => 61,
        SyntaxKind::TypedExpression => 62,
        SyntaxKind::VariableExpression => 63,
        SyntaxKind::LiteralChar => 64,
        SyntaxKind::LiteralString => 65,
        SyntaxKind::LiteralRawString => 66,
        SyntaxKind::LiteralInteger => 67,
        SyntaxKind::LiteralNumber => 68,
        SyntaxKind::LiteralTrue => 69,
        SyntaxKind::LiteralFalse => 70,
        SyntaxKind::ConstructorType => 71,
        SyntaxKind::ForallType => 72,
        SyntaxKind::TypeVariableBinding => 73,
        SyntaxKind::KindedType => 74,
        SyntaxKind::VariableType => 75,
        SyntaxKind::Pattern => 76,
        SyntaxKind::ValueDeclaration => 77,
        SyntaxKind::AnnotationDeclaration => 78,
        SyntaxKind::DataDeclaration => 79,
        SyntaxKind::DataKw => 80,
        SyntaxKind::NewtypeDeclaration => 81,
        SyntaxKind::NewtypeKw => 82,
        SyntaxKind::ForallKw => 83,
        SyntaxKind::TypeDeclaration => 84,
        SyntaxKind::TypeKw => 85,
        SyntaxKind::ClassDeclaration => 86,
        SyntaxKind::ClassKw => 87,
        SyntaxKind::InstanceDeclaration => 88,
        SyntaxKind::InstanceKw => 89,
        SyntaxKind::DeriveInstanceDeclaration => 90,
        SyntaxKind::DeriveKw => 91,
        SyntaxKind::ForeignDataDeclaration => 92,
        SyntaxKind::ForeignValueDeclaration => 93,
        SyntaxKind::ForeignKw => 94,
        SyntaxKind::FixityDeclaration => 95,
        SyntaxKind::InfixlKw => 96,
        SyntaxKind::InfixrKw => 97,
        SyntaxKind::InfixKw => 98,
        SyntaxKind::Labeled => 99,
        SyntaxKind::Prefixed => 100,
        SyntaxKind::Wrapped => 101,
        SyntaxKind::OneOrMore => 102,
        SyntaxKind::Pair => 103,
        SyntaxKind::Sentinel => 104,
        SyntaxKind::Error => 105,
        SyntaxKind::EndOfFile => 106,
    }
}

/// Two distinct kinds never share a raw code: the numeric projection
/// is lossless, so decoding a kind's own code always gives that kind
/// back.
pub proof fn lemma_code_of_injective(a: SyntaxKind, b: SyntaxKind)
    requires
        code_of(a) == code_of(b),
    ensures
        a == b,
{
}

/// True of the kinds that carry no grammatical meaning but are kept
/// for lossless round-tripping: whitespace and comments.
pub open spec fn is_trivia(k: SyntaxKind) -> bool {
    k == SyntaxKind::Whitespace || k == SyntaxKind::LineComment || k == SyntaxKind::BlockComment
}

impl SyntaxKind {
    /// Whether this kind is trivia: whitespace or a comment.
    pub fn is_whitespace_or_comment(&self) -> (r: bool)
        ensures
            r == is_trivia(*self),
    {
        matches!(self, Self::Whitespace | Self::LineComment | Self::BlockComment)
    }
}

/// The language binding: the conversion contract between abstract kinds
/// and their raw numeric codes.
#[derive(Debug, Clone, Copy, PartialEq, Eq, Hash, Structural)]
pub struct PureScript {}

impl PureScript {
    /// Decodes a raw code into its kind.
    ///
    /// A code above `SENTINEL_CODE` comes from a different kind space;
    /// presenting one is a contract violation, so such codes are
    /// excluded up front rather than handled at run time.
    pub fn kind_from_raw(raw: u16) -> (k: SyntaxKind)
        requires
            raw <= SENTINEL_CODE,
        ensures
            code_of(k) == raw,
    {
        match raw {
            0 => SyntaxKind::Whitespace,
            1 => SyntaxKind::LineComment,
            2 => SyntaxKind::BlockComment,
            3 => SyntaxKind::Module,
            4 => SyntaxKind::ModuleHeader,
            5 => SyntaxKind::ModuleKw,
            6 => SyntaxKind::WhereKw,
            7 => SyntaxKind::ExportList,
            8 => SyntaxKind::ImportList,
            9 => SyntaxKind::ImportDeclaration,
            10 => SyntaxKind::ImportKw,
            11 => SyntaxKind::AsKw,
            12 => SyntaxKind::ModuleName,
            13 => SyntaxKind::QualifiedName,
            14 => SyntaxKind::QualifiedPrefix,
            15 => SyntaxKind::Name,
            16 => SyntaxKind::NameRef,
            17 => SyntaxKind::Upper,
            18 => SyntaxKind::Lower,
            19 => SyntaxKind::Hole,
            20 => SyntaxKind::Operator,
            21 => SyntaxKind::At,
            22 => SyntaxKind::Equal,
            23 => SyntaxKind::Period,
            24 => SyntaxKind::Period2,
            25 => SyntaxKind::Colon,
            26 => SyntaxKind::Colon2,
            27 => SyntaxKind::LeftArrow,
            28 => SyntaxKind::RightArrow,
            29 => SyntaxKind::LeftThickArrow,
            30 => SyntaxKind::RightThickArrow,
            31 => SyntaxKind::LeftParenthesis,
            32 => SyntaxKind::RightParenthesis,
            33 => SyntaxKind::LeftBracket,
            34 => SyntaxKind::RightBracket,
            35 => SyntaxKind::LeftSquare,
            36 => SyntaxKind::RightSquare,
            37 => SyntaxKind::Tick,
            38 => SyntaxKind::Comma,
            39 => SyntaxKind::Pipe,
            40 => SyntaxKind::Minus,
            41 => SyntaxKind::AdoExpression,
            42 => SyntaxKind::AdoKw,
            43 => SyntaxKind::QualifiedAdo,
            44 => SyntaxKind::DoExpression,
            45 => SyntaxKind::DoKw,
            46 => SyntaxKind::QualifiedDo,
            47 => SyntaxKind::ApplicationExpression,
            48 => SyntaxKind::TermArgument,
            49 => SyntaxKind::TypeArgument,
            50 => SyntaxKind::ConstructorExpression,
            51 => SyntaxKind::LiteralExpression,
            52 => SyntaxKind::IfThenElseExpression,
            53 => SyntaxKind::IfKw,
            54 => SyntaxKind::ThenKw,
            55 => SyntaxKind::ElseKw,
            56 => SyntaxKind::InfixChain,
            57 => SyntaxKind::NegateExpression,
            58 => SyntaxKind::OperatorChain,
            59 => SyntaxKind::OperatorNameExpression,
            60 => SyntaxKind::ParenthesizedExpression,
            61 => SyntaxKind::TernaryExpression,
            62 => SyntaxKind::TypedExpression,
            63 => SyntaxKind::VariableExpression,
            64 => SyntaxKind::LiteralChar,
            65 => SyntaxKind::LiteralString,
            66 => SyntaxKind::LiteralRawString,
            67 => SyntaxKind::LiteralInteger,
            68 => SyntaxKind::LiteralNumber,
            69 => SyntaxKind::LiteralTrue,
            70 => SyntaxKind::LiteralFalse,
            71 => SyntaxKind::ConstructorType,
            72 => SyntaxKind::ForallType,
            73 => SyntaxKind::TypeVariableBinding,
            74 => SyntaxKind::KindedType,
            75 => SyntaxKind::VariableType,
            76 => SyntaxKind::Pattern,
            77 => SyntaxKind::ValueDeclaration,
            78 => SyntaxKind::AnnotationDeclaration,
            79 => SyntaxKind::DataDeclaration,
            80 => SyntaxKind::DataKw,
            81 => SyntaxKind::NewtypeDeclaration,
            82 => SyntaxKind::NewtypeKw,
            83 => SyntaxKind::ForallKw,
            84 => SyntaxKind::TypeDeclaration,
            85 => SyntaxKind::TypeKw,
            86 => SyntaxKind::ClassDeclaration,
            87 => SyntaxKind::ClassKw,
            88 => SyntaxKind::InstanceDeclaration,
            89 => SyntaxKind::InstanceKw,
            90 => SyntaxKind::DeriveInstanceDeclaration,
            91 => SyntaxKind::DeriveKw,
            92 => SyntaxKind::ForeignDataDeclaration,
            93 => SyntaxKind::ForeignValueDeclaration,
            94 => SyntaxKind::ForeignKw,
            95 => SyntaxKind::FixityDeclaration,
            96 => SyntaxKind::InfixlKw,
            97 => SyntaxKind::InfixrKw,
            98 => SyntaxKind::InfixKw,
            99 => SyntaxKind::Labeled,
            100 => SyntaxKind::Prefixed,
            101 => SyntaxKind::Wrapped,
            102 => SyntaxKind::OneOrMore,
            103 => SyntaxKind::Pair,
            104 => SyntaxKind::Sentinel,
            105 => SyntaxKind::Error,
            106 => SyntaxKind::EndOfFile,
            _ => SyntaxKind::EndOfFile,
        }
    }

    /// Encodes a kind as its raw code: total and lossless.
    pub fn kind_to_raw(kind: SyntaxKind) -> (r: u16)
        ensures
            r == code_of(kind),
    {
        match kind {
            SyntaxKind::Whitespace => 0,
            SyntaxKind::LineComment => 1,
            SyntaxKind::BlockComment => 2,
            SyntaxKind::Module => 3,
            SyntaxKind::ModuleHeader => 4,
            SyntaxKind::ModuleKw => 5,
            SyntaxKind::WhereKw => 6,
            SyntaxKind::ExportList => 7,
            SyntaxKind::ImportList => 8,
            SyntaxKind::ImportDeclaration => 9,
            SyntaxKind::ImportKw => 10,
            SyntaxKind::AsKw => 11,
            SyntaxKind::ModuleName => 12,
            SyntaxKind::QualifiedName => 13,
            SyntaxKind::QualifiedPrefix => 14,
            SyntaxKind::Name => 15,
            SyntaxKind::NameRef => 16,
            SyntaxKind::Upper => 17,
            SyntaxKind::Lower => 18,
            SyntaxKind::Hole => 19,
            SyntaxKind::Operator => 20,
            SyntaxKind::At => 21,
            SyntaxKind::Equal => 22,
            SyntaxKind::Period => 23,
            SyntaxKind::Period2 => 24,
            SyntaxKind::Colon => 25,
            SyntaxKind::Colon2 => 26,
            SyntaxKind::LeftArrow => 27,
            SyntaxKind::RightArrow => 28,
            SyntaxKind::LeftThickArrow => 29,
            SyntaxKind::RightThickArrow => 30,
            SyntaxKind::LeftParenthesis => 31,
            SyntaxKind::RightParenthesis => 32,
            SyntaxKind::LeftBracket => 33,
            SyntaxKind::RightBracket => 34,
            SyntaxKind::LeftSquare => 35,
            SyntaxKind::RightSquare => 36,
            SyntaxKind::Tick => 37,
            SyntaxKind::Comma => 38,
            SyntaxKind::Pipe => 39,
            SyntaxKind::Minus => 40,
            SyntaxKind::AdoExpression => 41,
            SyntaxKind::AdoKw => 42,
            SyntaxKind::QualifiedAdo => 43,
            SyntaxKind::DoExpression => 44,
            SyntaxKind::DoKw => 45,
            SyntaxKind::QualifiedDo => 46,
            SyntaxKind::ApplicationExpression => 47,
            SyntaxKind::TermArgument => 48,
            SyntaxKind::TypeArgument => 49,
            SyntaxKind::ConstructorExpression => 50,
            SyntaxKind::LiteralExpression => 51,
            SyntaxKind::IfThenElseExpression => 52,
            SyntaxKind::IfKw => 53,
            SyntaxKind::ThenKw => 54,
            SyntaxKind::ElseKw => 55,
            SyntaxKind::InfixChain => 56,
            SyntaxKind::NegateExpression => 57,
            SyntaxKind::OperatorChain => 58,
            SyntaxKind::OperatorNameExpression => 59,
            SyntaxKind::ParenthesizedExpression => 60,
            SyntaxKind::TernaryExpression => 61,
            SyntaxKind::TypedExpression => 62,
            SyntaxKind::VariableExpression => 63,
            SyntaxKind::LiteralChar => 64,
            SyntaxKind::LiteralString => 65,
            SyntaxKind::LiteralRawString => 66,
            SyntaxKind::LiteralInteger => 67,
            SyntaxKind::LiteralNumber => 68,
            SyntaxKind::LiteralTrue => 69,
            SyntaxKind::LiteralFalse => 70,
            SyntaxKind::ConstructorType => 71,
            SyntaxKind::ForallType => 72,
            SyntaxKind::TypeVariableBinding => 73,
            SyntaxKind::KindedType => 74,
            SyntaxKind::VariableType => 75,
            SyntaxKind::Pattern => 76,
            SyntaxKind::ValueDeclaration => 77,
            SyntaxKind::AnnotationDeclaration => 78,
            SyntaxKind::DataDeclaration => 79,
            SyntaxKind::DataKw => 80,
            SyntaxKind::NewtypeDeclaration => 81,
            SyntaxKind::NewtypeKw => 82,
            SyntaxKind::ForallKw => 83,
            SyntaxKind::TypeDeclaration => 84,
            SyntaxKind::TypeKw => 85,
            SyntaxKind::ClassDeclaration => 86,
            SyntaxKind::ClassKw => 87,
            SyntaxKind::InstanceDeclaration => 88,
            SyntaxKind::InstanceKw => 89,
            SyntaxKind::DeriveInstanceDeclaration => 90,
            SyntaxKind::DeriveKw => 91,
            SyntaxKind::ForeignDataDeclaration => 92,
            SyntaxKind::ForeignValueDeclaration => 93,
            SyntaxKind::ForeignKw => 94,
            SyntaxKind::FixityDeclaration => 95,
            SyntaxKind::InfixlKw => 96,
            SyntaxKind::InfixrKw => 97,
            SyntaxKind::InfixKw => 98,
            SyntaxKind::Labeled => 99,
            SyntaxKind::Prefixed => 100,
            SyntaxKind::Wrapped => 101,
            SyntaxKind::OneOrMore => 102,
            SyntaxKind::Pair => 103,
            SyntaxKind::Sentinel => 104,
            SyntaxKind::Error => 105,
            SyntaxKind::EndOfFile => 106,
        }
    }

    /// Decodes a raw code, reporting an out-of-range code as an absence
    /// instead of excluding it by contract.
    pub fn kind_from_raw_checked(raw: u16) -> (k: Option<SyntaxKind>)
        ensures
            k is Some <==> raw <= SENTINEL_CODE,
            k matches Some(kind) ==> code_of(kind) == raw,
    {
        if raw <= SENTINEL_CODE {
            Some(Self::kind_from_raw(raw))
        } else {
            None
        }
    }
}

} // verus!
