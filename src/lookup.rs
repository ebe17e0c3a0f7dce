use vstd::prelude::*;

use crate::token::{TokenKind, KIND_COUNT};

verus! {

/// Precedence level: a higher value binds tighter.
pub type BindingPower = u8;

pub const DEFAULT_BP: BindingPower = 0;
pub const COMMA: BindingPower = 1;
pub const ASSIGNMENT: BindingPower = 2;
pub const LOGICAL: BindingPower = 3;
pub const RELATIONAL: BindingPower = 4;
pub const ADDITIVE: BindingPower = 5;
pub const MULTIPLICATIVE: BindingPower = 6;
pub const UNARY: BindingPower = 7;
pub const CALL: BindingPower = 8;
pub const MEMBER: BindingPower = 9;
pub const PRIMARY: BindingPower = 10;

/// Expression forms that start at a token.
#[derive(Debug, Clone, Copy, PartialEq, Eq, Structural)]
pub enum NudHandler {
    /// A number, string or identifier literal.
    Primary,
    /// An operator applied to the operand that follows.
    Prefix,
    /// A parenthesized expression.
    Group,
    /// A bracketed, comma-separated list of expressions.
    ArrayLiteral,
}

/// Expression forms that continue an expression already parsed.
#[derive(Debug, Clone, Copy, PartialEq, Eq, Structural)]
pub enum LedHandler {
    /// A left-associative binary operator.
    Binary,
}

/// Statement forms that start at a token.
#[derive(Debug, Clone, Copy, PartialEq, Eq, Structural)]
pub enum StmtHandler {
    VarDecl,
    Modifiers,
}

/// Type forms that start at a token.
#[derive(Debug, Clone, Copy, PartialEq, Eq, Structural)]
pub enum TypeHandler {
    Identifier,
    Bracket,
    Tuple,
    Prefixed,
}

/// The expression and statement registry: for each token kind a binding power,
/// a prefix handler, an infix handler and a statement handler, each optional.
pub struct Lookups {
    bp: Vec<Option<BindingPower>>,
    nud: Vec<Option<NudHandler>>,
    led: Vec<Option<LedHandler>>,
    stmt: Vec<Option<StmtHandler>>,
}

/// The type registry: for each token kind a binding power and a prefix handler.
pub struct TypeLookups {
    bp: Vec<Option<BindingPower>>,
    nud: Vec<Option<TypeHandler>>,
}

pub open spec fn entry<T>(v: Seq<Option<T>>, k: TokenKind) -> Option<T> {
    if k.ordinal() < v.len() {
        v[k.ordinal() as int]
    } else {
        None
    }
}

fn absent_table<T: Copy>() -> (r: Vec<Option<T>>)
    ensures
        r@.len() == KIND_COUNT,
        forall|i: int| 0 <= i < KIND_COUNT ==> r@[i] is None,
{
    let mut v: Vec<Option<T>> = Vec::new();
    while v.len() < KIND_COUNT
        invariant
            v@.len() <= KIND_COUNT,
            forall|i: int| 0 <= i < v@.len() ==> v@[i] is None,
        decreases KIND_COUNT - v@.len(),
    {
        v.push(None);
    }
    v
}

impl Lookups {
    pub closed spec fn bp_of(&self, k: TokenKind) -> Option<BindingPower> {
        entry(self.bp@, k)
    }

    pub closed spec fn nud_of(&self, k: TokenKind) -> Option<NudHandler> {
        entry(self.nud@, k)
    }

    pub closed spec fn led_of(&self, k: TokenKind) -> Option<LedHandler> {
        entry(self.led@, k)
    }

    pub closed spec fn stmt_of(&self, k: TokenKind) -> Option<StmtHandler> {
        entry(self.stmt@, k)
    }

    pub closed spec fn wf(&self) -> bool {
        &&& self.bp@.len() == KIND_COUNT
        &&& self.nud@.len() == KIND_COUNT
        &&& self.led@.len() == KIND_COUNT
        &&& self.stmt@.len() == KIND_COUNT
        &&& entry(self.nud@, TokenKind::EOF) is None
        &&& entry(self.stmt@, TokenKind::EOF) is None
    }

    /// A registry with nothing registered.
    pub fn new() -> (r: Lookups)
        ensures
            r.wf(),
            forall|k: TokenKind|
                r.bp_of(k) is None && r.nud_of(k) is None && r.led_of(k) is None && r.stmt_of(
                    k,
                ) is None,
    {
        Lookups { bp: absent_table(), nud: absent_table(), led: absent_table(), stmt: absent_table() }
    }

    /// Registers a prefix handler for `kind`, with binding power `bp`.
    pub fn nud_reg(&mut self, kind: TokenKind, bp: BindingPower, h: NudHandler)
        requires
            old(self).wf(),
            kind != TokenKind::EOF,
        ensures
            final(self).wf(),
            forall|k: TokenKind|
                final(self).bp_of(k) == if k == kind {
                    Some(bp)
                } else {
                    old(self).bp_of(k)
                },
            forall|k: TokenKind|
                final(self).nud_of(k) == if k == kind {
                    Some(h)
                } else {
                    old(self).nud_of(k)
                },
            forall|k: TokenKind| final(self).led_of(k) == old(self).led_of(k),
            forall|k: TokenKind| final(self).stmt_of(k) == old(self).stmt_of(k),
    {
        let i = kind.index();
        self.bp.set(i, Some(bp));
        self.nud.set(i, Some(h));
        proof {
            assert forall|k: TokenKind| k.ordinal() == kind.ordinal() implies k == kind by {
                crate::token::lemma_ordinal_round_trip(k);
                crate::token::lemma_ordinal_round_trip(kind);
            }
        }
    }

    /// Registers an infix handler for `kind`, with binding power `bp`.
    pub fn led_reg(&mut self, kind: TokenKind, bp: BindingPower, h: LedHandler)
        requires
            old(self).wf(),
        ensures
            final(self).wf(),
            forall|k: TokenKind|
                final(self).bp_of(k) == if k == kind {
                    Some(bp)
                } else {
                    old(self).bp_of(k)
                },
            forall|k: TokenKind|
                final(self).led_of(k) == if k == kind {
                    Some(h)
                } else {
                    old(self).led_of(k)
                },
            forall|k: TokenKind| final(self).nud_of(k) == old(self).nud_of(k),
            forall|k: TokenKind| final(self).stmt_of(k) == old(self).stmt_of(k),
    {
        let i = kind.index();
        self.bp.set(i, Some(bp));
        self.led.set(i, Some(h));
        proof {
            assert forall|k: TokenKind| k.ordinal() == kind.ordinal() implies k == kind by {
                crate::token::lemma_ordinal_round_trip(k);
                crate::token::lemma_ordinal_round_trip(kind);
            }
        }
    }

    /// Registers a statement handler for `kind`, with the lowest binding power.
    pub fn stmt_reg(&mut self, kind: TokenKind, h: StmtHandler)
        requires
            old(self).wf(),
            kind != TokenKind::EOF,
        ensures
            final(self).wf(),
            forall|k: TokenKind|
                final(self).bp_of(k) == if k == kind {
                    Some(DEFAULT_BP)
                } else {
                    old(self).bp_of(k)
                },
            forall|k: TokenKind|
                final(self).stmt_of(k) == if k == kind {
                    Some(h)
                } else {
                    old(self).stmt_of(k)
                },
            forall|k: TokenKind| final(self).nud_of(k) == old(self).nud_of(k),
            forall|k: TokenKind| final(self).led_of(k) == old(self).led_of(k),
    {
        let i = kind.index();
        self.bp.set(i, Some(DEFAULT_BP));
        self.stmt.set(i, Some(h));
        proof {
            assert forall|k: TokenKind| k.ordinal() == kind.ordinal() implies k == kind by {
                crate::token::lemma_ordinal_round_trip(k);
                crate::token::lemma_ordinal_round_trip(kind);
            }
        }
    }

    pub fn bp(&self, kind: TokenKind) -> (r: Option<BindingPower>)
        requires
            self.wf(),
        ensures
            r == self.bp_of(kind),
    {
        self.bp[kind.index()]
    }

    pub fn nud(&self, kind: TokenKind) -> (r: Option<NudHandler>)
        requires
            self.wf(),
        ensures
            r == self.nud_of(kind),
            r is Some ==> kind != TokenKind::EOF,
    {
        self.nud[kind.index()]
    }

    pub fn led(&self, kind: TokenKind) -> (r: Option<LedHandler>)
        requires
            self.wf(),
        ensures
            r == self.led_of(kind),
    {
        self.led[kind.index()]
    }

    pub fn stmt(&self, kind: TokenKind) -> (r: Option<StmtHandler>)
        requires
            self.wf(),
        ensures
            r == self.stmt_of(kind),
            r is Some ==> kind != TokenKind::EOF,
    {
        self.stmt[kind.index()]
    }
}

impl TypeLookups {
    pub closed spec fn bp_of(&self, k: TokenKind) -> Option<BindingPower> {
        entry(self.bp@, k)
    }

    pub closed spec fn nud_of(&self, k: TokenKind) -> Option<TypeHandler> {
        entry(self.nud@, k)
    }

    pub closed spec fn wf(&self) -> bool {
        &&& self.bp@.len() == KIND_COUNT
        &&& self.nud@.len() == KIND_COUNT
        &&& entry(self.nud@, TokenKind::EOF) is None
    }

    /// A registry with nothing registered.
    pub fn new() -> (r: TypeLookups)
        ensures
            r.wf(),
            forall|k: TokenKind| r.bp_of(k) is None && r.nud_of(k) is None,
    {
        TypeLookups { bp: absent_table(), nud: absent_table() }
    }

    /// Registers a prefix handler for `kind`, with binding power `bp`.
    pub fn nud_reg(&mut self, kind: TokenKind, bp: BindingPower, h: TypeHandler)
        requires
            old(self).wf(),
            kind != TokenKind::EOF,
        ensures
            final(self).wf(),
            forall|k: TokenKind|
                final(self).bp_of(k) == if k == kind {
                    Some(bp)
                } else {
                    old(self).bp_of(k)
                },
            forall|k: TokenKind|
                final(self).nud_of(k) == if k == kind {
                    Some(h)
                } else {
                    old(self).nud_of(k)
                },
    {
        let i = kind.index();
        self.bp.set(i, Some(bp));
        self.nud.set(i, Some(h));
        proof {
            assert forall|k: TokenKind| k.ordinal() == kind.ordinal() implies k == kind by {
                crate::token::lemma_ordinal_round_trip(k);
                crate::token::lemma_ordinal_round_trip(kind);
            }
        }
    }

    pub fn bp(&self, kind: TokenKind) -> (r: Option<BindingPower>)
        requires
            self.wf(),
        ensures
            r == self.bp_of(kind),
    {
        self.bp[kind.index()]
    }

    pub fn nud(&self, kind: TokenKind) -> (r: Option<TypeHandler>)
        requires
            self.wf(),
        ensures
            r == self.nud_of(kind),
            r is Some ==> kind != TokenKind::EOF,
    {
        self.nud[kind.index()]
    }
}

/// Binding powers of the standard expression and statement registry.
pub open spec fn expr_bp(k: TokenKind) -> Option<BindingPower> {
    match k {
        TokenKind::NUMBER | TokenKind::STRING | TokenKind::IDENTIFIER | TokenKind::OPEN_BRACKET
        | TokenKind::OPEN_PAREN => Some(PRIMARY),
        TokenKind::NOT => Some(UNARY),
        TokenKind::AND | TokenKind::OR => Some(LOGICAL),
        TokenKind::EQUALS | TokenKind::NOT_EQUALS | TokenKind::LESS | TokenKind::LESS_EQUALS
        | TokenKind::GREATER | TokenKind::GREATER_EQUALS => Some(RELATIONAL),
        TokenKind::PLUS | TokenKind::MINUS => Some(ADDITIVE),
        TokenKind::STAR | TokenKind::PERCENT => Some(MULTIPLICATIVE),
        TokenKind::PUBLIC | TokenKind::PRIVATE | TokenKind::FILEPRIVATE | TokenKind::LAZY
        | TokenKind::OPEN | TokenKind::INTERNAL | TokenKind::STATIC | TokenKind::FINAL
        | TokenKind::VAR | TokenKind::LET => Some(DEFAULT_BP),
        _ => None,
    }
}

/// Prefix handlers of the standard expression registry.
pub open spec fn expr_nud(k: TokenKind) -> Option<NudHandler> {
    match k {
        TokenKind::NUMBER | TokenKind::STRING | TokenKind::IDENTIFIER => Some(NudHandler::Primary),
        TokenKind::OPEN_BRACKET => Some(NudHandler::ArrayLiteral),
        TokenKind::OPEN_PAREN => Some(NudHandler::Group),
        TokenKind::NOT | TokenKind::MINUS => Some(NudHandler::Prefix),
        _ => None,
    }
}

/// Infix handlers of the standard expression registry.
pub open spec fn expr_led(k: TokenKind) -> Option<LedHandler> {
    match k {
        TokenKind::AND | TokenKind::OR | TokenKind::EQUALS | TokenKind::NOT_EQUALS
        | TokenKind::LESS | TokenKind::LESS_EQUALS | TokenKind::GREATER
        | TokenKind::GREATER_EQUALS | TokenKind::PLUS | TokenKind::MINUS | TokenKind::STAR
        | TokenKind::PERCENT => Some(LedHandler::Binary),
        _ => None,
    }
}

/// Token kinds that prefix a declaration as access or storage modifiers.
pub open spec fn is_modifier_kind(k: TokenKind) -> bool {
    match k {
        TokenKind::PUBLIC | TokenKind::PRIVATE | TokenKind::FILEPRIVATE | TokenKind::LAZY
        | TokenKind::OPEN | TokenKind::INTERNAL | TokenKind::STATIC | TokenKind::FINAL => true,
        _ => false,
    }
}

pub fn is_modifier(kind: &TokenKind) -> (r: bool)
    ensures
        r == is_modifier_kind(*kind),
{
    match kind {
        TokenKind::PUBLIC | TokenKind::PRIVATE | TokenKind::FILEPRIVATE | TokenKind::LAZY
        | TokenKind::OPEN | TokenKind::INTERNAL | TokenKind::STATIC | TokenKind::FINAL => true,
        _ => false,
    }
}

/// Statement handlers of the standard statement registry.
pub open spec fn stmt_handler(k: TokenKind) -> Option<StmtHandler> {
    if is_modifier_kind(k) {
        Some(StmtHandler::Modifiers)
    } else if k == TokenKind::VAR || k == TokenKind::LET {
        Some(StmtHandler::VarDecl)
    } else {
        None
    }
}

/// Binding powers of the standard type registry.
pub open spec fn type_bp(k: TokenKind) -> Option<BindingPower> {
    match k {
        TokenKind::IDENTIFIER | TokenKind::ANY | TokenKind::SOME => Some(PRIMARY),
        TokenKind::OPEN_BRACKET | TokenKind::OPEN_PAREN => Some(MEMBER),
        _ => None,
    }
}

/// Prefix handlers of the standard type registry.
pub open spec fn type_nud(k: TokenKind) -> Option<TypeHandler> {
    match k {
        TokenKind::IDENTIFIER => Some(TypeHandler::Identifier),
        TokenKind::OPEN_BRACKET => Some(TypeHandler::Bracket),
        TokenKind::OPEN_PAREN => Some(TypeHandler::Tuple),
        TokenKind::ANY | TokenKind::SOME => Some(TypeHandler::Prefixed),
        _ => None,
    }
}

/// What an expression and statement registry maps each token kind to.
pub struct ExprGrammar {
    pub bp: spec_fn(TokenKind) -> Option<BindingPower>,
    pub nud: spec_fn(TokenKind) -> Option<NudHandler>,
    pub led: spec_fn(TokenKind) -> Option<LedHandler>,
    pub stmt: spec_fn(TokenKind) -> Option<StmtHandler>,
}

/// What a type registry maps each token kind to.
pub struct TypeGrammar {
    pub bp: spec_fn(TokenKind) -> Option<BindingPower>,
    pub nud: spec_fn(TokenKind) -> Option<TypeHandler>,
}

/// The standard expression and statement grammar.
pub open spec fn standard_grammar() -> ExprGrammar {
    ExprGrammar {
        bp: |k: TokenKind| expr_bp(k),
        nud: |k: TokenKind| expr_nud(k),
        led: |k: TokenKind| expr_led(k),
        stmt: |k: TokenKind| stmt_handler(k),
    }
}

/// The standard type grammar.
pub open spec fn standard_type_grammar() -> TypeGrammar {
    TypeGrammar { bp: |k: TokenKind| type_bp(k), nud: |k: TokenKind| type_nud(k) }
}

impl Lookups {
    pub open spec fn grammar(&self) -> ExprGrammar {
        ExprGrammar {
            bp: |k: TokenKind| self.bp_of(k),
            nud: |k: TokenKind| self.nud_of(k),
            led: |k: TokenKind| self.led_of(k),
            stmt: |k: TokenKind| self.stmt_of(k),
        }
    }

    pub proof fn lemma_standard(&self)
        requires
            self.is_standard(),
        ensures
            self.grammar() == standard_grammar(),
    {
        assert(self.grammar().bp =~= standard_grammar().bp);
        assert(self.grammar().nud =~= standard_grammar().nud);
        assert(self.grammar().led =~= standard_grammar().led);
        assert(self.grammar().stmt =~= standard_grammar().stmt);
    }

    pub open spec fn is_standard(&self) -> bool {
        &&& self.wf()
        &&& forall|k: TokenKind| #[trigger] self.bp_of(k) == expr_bp(k)
        &&& forall|k: TokenKind| #[trigger] self.nud_of(k) == expr_nud(k)
        &&& forall|k: TokenKind| #[trigger] self.led_of(k) == expr_led(k)
        &&& forall|k: TokenKind| #[trigger] self.stmt_of(k) == stmt_handler(k)
    }
}

impl TypeLookups {
    pub open spec fn grammar(&self) -> TypeGrammar {
        TypeGrammar { bp: |k: TokenKind| self.bp_of(k), nud: |k: TokenKind| self.nud_of(k) }
    }

    pub proof fn lemma_standard(&self)
        requires
            self.is_standard(),
        ensures
            self.grammar() == standard_type_grammar(),
    {
        assert(self.grammar().bp =~= standard_type_grammar().bp);
        assert(self.grammar().nud =~= standard_type_grammar().nud);
    }

    pub open spec fn is_standard(&self) -> bool {
        &&& self.wf()
        &&& forall|k: TokenKind| #[trigger] self.bp_of(k) == type_bp(k)
        &&& forall|k: TokenKind| #[trigger] self.nud_of(k) == type_nud(k)
    }
}

/// Builds the standard expression and statement registry.
pub fn register_lookups() -> (r: Lookups)
    ensures
        r.is_standard(),
{
    let mut l = Lookups::new();
    l.nud_reg(TokenKind::NUMBER, PRIMARY, NudHandler::Primary);
    l.nud_reg(TokenKind::STRING, PRIMARY, NudHandler::Primary);
    l.nud_reg(TokenKind::IDENTIFIER, PRIMARY, NudHandler::Primary);
    l.nud_reg(TokenKind::OPEN_BRACKET, PRIMARY, NudHandler::ArrayLiteral);
    l.nud_reg(TokenKind::OPEN_PAREN, PRIMARY, NudHandler::Group);
    l.nud_reg(TokenKind::NOT, UNARY, NudHandler::Prefix);
    l.nud_reg(TokenKind::MINUS, UNARY, NudHandler::Prefix);

    l.led_reg(TokenKind::AND, LOGICAL, LedHandler::Binary);
    l.led_reg(TokenKind::OR, LOGICAL, LedHandler::Binary);
    l.led_reg(TokenKind::EQUALS, RELATIONAL, LedHandler::Binary);
    l.led_reg(TokenKind::NOT_EQUALS, RELATIONAL, LedHandler::Binary);
    l.led_reg(TokenKind::LESS, RELATIONAL, LedHandler::Binary);
    l.led_reg(TokenKind::LESS_EQUALS, RELATIONAL, LedHandler::Binary);
    l.led_reg(TokenKind::GREATER, RELATIONAL, LedHandler::Binary);
    l.led_reg(TokenKind::GREATER_EQUALS, RELATIONAL, LedHandler::Binary);
    l.led_reg(TokenKind::PLUS, ADDITIVE, LedHandler::Binary);
    l.led_reg(TokenKind::MINUS, ADDITIVE, LedHandler::Binary);
    l.led_reg(TokenKind::STAR, MULTIPLICATIVE, LedHandler::Binary);
    l.led_reg(TokenKind::PERCENT, MULTIPLICATIVE, LedHandler::Binary);

    l.stmt_reg(TokenKind::PUBLIC, StmtHandler::Modifiers);
    l.stmt_reg(TokenKind::PRIVATE, StmtHandler::Modifiers);
    l.stmt_reg(TokenKind::FILEPRIVATE, StmtHandler::Modifiers);
    l.stmt_reg(TokenKind::LAZY, StmtHandler::Modifiers);
    l.stmt_reg(TokenKind::OPEN, StmtHandler::Modifiers);
    l.stmt_reg(TokenKind::INTERNAL, StmtHandler::Modifiers);
    l.stmt_reg(TokenKind::STATIC, StmtHandler::Modifiers);
    l.stmt_reg(TokenKind::FINAL, StmtHandler::Modifiers);
    l.stmt_reg(TokenKind::VAR, StmtHandler::VarDecl);
    l.stmt_reg(TokenKind::LET, StmtHandler::VarDecl);
    l
}

/// Builds the standard type registry.
pub fn register_types_lookup() -> (r: TypeLookups)
    ensures
        r.is_standard(),
{
    let mut t = TypeLookups::new();
    t.nud_reg(TokenKind::IDENTIFIER, PRIMARY, TypeHandler::Identifier);
    t.nud_reg(TokenKind::OPEN_BRACKET, MEMBER, TypeHandler::Bracket);
    t.nud_reg(TokenKind::OPEN_PAREN, MEMBER, TypeHandler::Tuple);
    t.nud_reg(TokenKind::ANY, PRIMARY, TypeHandler::Prefixed);
    t.nud_reg(TokenKind::SOME, PRIMARY, TypeHandler::Prefixed);
    t
}

} // verus!
