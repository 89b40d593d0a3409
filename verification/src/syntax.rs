//! The kinds that tokens and nodes have.
use vstd::prelude::*;

verus! {

/// How the source text spells a token of some kind.
#[derive(Clone, Copy, Debug)]
pub enum Spelling {
    /// A keyword, with its text.
    Keyword(&'static str),
    /// Any other token whose text is always the same.
    Fixed(&'static str),
    /// A token whose text varies, or a node.
    Varying,
}

/// What the parser knows of a kind of the grammar besides its number.
#[derive(Clone, Copy, Debug)]
pub struct KindDetails {
    pub spelling: Spelling,
    /// The number of the unknown node that best matches the kind, where that is not the
    /// unknown node of the whole grammar.
    pub unknown: Option<u16>,
}

// Kinds with the same number are equal, so that nothing else of them may be hashed.
impl std::hash::Hash for KindDetails {
    fn hash<H: std::hash::Hasher>(&self, _state: &mut H) {
    }
}

/// A kind of the grammar.
#[derive(Clone, Copy, Debug, Hash)]
pub struct KindInfo {
    /// The number of the kind. No two kinds share one.
    pub raw: u16,
    pub details: KindDetails,
}

/// The kind of a token or of a node.
///
/// The kinds that the parser itself tells apart have a variant of their own. All others come
/// from the grammar.
#[allow(non_camel_case_types)]
#[derive(Clone, Copy, Debug, Hash)]
pub enum JsSyntaxKind {
    /// A node that is not completed, or that was abandoned.
    TOMBSTONE,
    /// The end of the file.
    EOF,
    /// A token that could not be accepted as what it seems to be.
    ERROR_TOKEN,
    /// A node that matches no rule of the grammar.
    JS_UNKNOWN,
    Other(KindInfo),
}

impl JsSyntaxKind {
    /// Whether both are the same kind.
    pub open spec fn same(self, other: JsSyntaxKind) -> bool {
        match (self, other) {
            (JsSyntaxKind::TOMBSTONE, JsSyntaxKind::TOMBSTONE) => true,
            (JsSyntaxKind::EOF, JsSyntaxKind::EOF) => true,
            (JsSyntaxKind::ERROR_TOKEN, JsSyntaxKind::ERROR_TOKEN) => true,
            (JsSyntaxKind::JS_UNKNOWN, JsSyntaxKind::JS_UNKNOWN) => true,
            (JsSyntaxKind::Other(left), JsSyntaxKind::Other(right)) => left.raw == right.raw,
            _ => false,
        }
    }

    pub open spec fn spec_is_keyword(self) -> bool {
        self matches JsSyntaxKind::Other(info) && info.details.spelling is Keyword
    }

    /// The text that every token of this kind has, if there is one.
    pub open spec fn fixed_text(self) -> Option<Seq<char>> {
        match self {
            JsSyntaxKind::Other(info) => match info.details.spelling {
                Spelling::Keyword(text) => Some(text@),
                Spelling::Fixed(text) => Some(text@),
                Spelling::Varying => None,
            },
            _ => None,
        }
    }

    /// The kind of the unknown node that best matches this kind.
    pub open spec fn spec_to_unknown(self) -> JsSyntaxKind {
        match self {
            JsSyntaxKind::Other(info) => match info.details.unknown {
                Some(raw) => JsSyntaxKind::Other(
                    KindInfo {
                        raw,
                        details: KindDetails { spelling: Spelling::Varying, unknown: Some(raw) },
                    },
                ),
                None => JsSyntaxKind::JS_UNKNOWN,
            },
            _ => JsSyntaxKind::JS_UNKNOWN,
        }
    }

    /// Returns true for the kind of a keyword.
    pub fn is_keyword(&self) -> (keyword: bool)
        ensures
            keyword == self.spec_is_keyword(),
    {
        match self {
            JsSyntaxKind::Other(info) => match info.details.spelling {
                Spelling::Keyword(_) => true,
                _ => false,
            },
            _ => false,
        }
    }

    /// Returns the text that every token of this kind has, if there is one.
    pub fn to_string(&self) -> (text: Option<&'static str>)
        ensures
            text is Some <==> self.fixed_text() is Some,
            text matches Some(text) ==> self.fixed_text() == Some(text@),
    {
        match self {
            JsSyntaxKind::Other(info) => match info.details.spelling {
                Spelling::Keyword(text) => Some(text),
                Spelling::Fixed(text) => Some(text),
                Spelling::Varying => None,
            },
            _ => None,
        }
    }

    /// Returns the kind of the unknown node that best matches this kind.
    pub fn to_unknown(&self) -> (kind: JsSyntaxKind)
        ensures
            kind == self.spec_to_unknown(),
    {
        match self {
            JsSyntaxKind::Other(info) => match info.details.unknown {
                Some(raw) => JsSyntaxKind::Other(
                    KindInfo {
                        raw,
                        details: KindDetails { spelling: Spelling::Varying, unknown: Some(raw) },
                    },
                ),
                None => JsSyntaxKind::JS_UNKNOWN,
            },
            _ => JsSyntaxKind::JS_UNKNOWN,
        }
    }
}

impl PartialEq for JsSyntaxKind {
    fn eq(&self, other: &JsSyntaxKind) -> (equal: bool) {
        match (self, other) {
            (JsSyntaxKind::TOMBSTONE, JsSyntaxKind::TOMBSTONE) => true,
            (JsSyntaxKind::EOF, JsSyntaxKind::EOF) => true,
            (JsSyntaxKind::ERROR_TOKEN, JsSyntaxKind::ERROR_TOKEN) => true,
            (JsSyntaxKind::JS_UNKNOWN, JsSyntaxKind::JS_UNKNOWN) => true,
            (JsSyntaxKind::Other(left), JsSyntaxKind::Other(right)) => left.raw == right.raw,
            _ => false,
        }
    }
}

impl vstd::std_specs::cmp::PartialEqSpecImpl for JsSyntaxKind {
    open spec fn obeys_eq_spec() -> bool {
        true
    }

    open spec fn eq_spec(&self, other: &JsSyntaxKind) -> bool {
        self.same(*other)
    }
}

impl Eq for JsSyntaxKind {

}

/// The kinds of the text between tokens.
#[derive(Clone, Copy, Debug, PartialEq, Eq, Structural, Hash)]
pub enum TriviaPieceKind {
    Newline,
    Whitespace,
    SingleLineComment,
    MultiLineComment,
    /// A token that the parser passed over.
    Skipped,
}

/// A set of kinds.
#[derive(Clone, Debug)]
pub struct TokenSet {
    kinds: Vec<JsSyntaxKind>,
}

impl View for TokenSet {
    type V = Seq<JsSyntaxKind>;

    closed spec fn view(&self) -> Seq<JsSyntaxKind> {
        self.kinds@
    }
}

impl TokenSet {
    /// Whether `kind` is one of the kinds of the set.
    pub open spec fn has_kind(self, kind: JsSyntaxKind) -> bool {
        exists|i: int| 0 <= i < self@.len() && (#[trigger] self@[i]).same(kind)
    }

    /// Creates the set of `kinds`.
    pub fn new(kinds: Vec<JsSyntaxKind>) -> (set: TokenSet)
        ensures
            set@ == kinds@,
    {
        TokenSet { kinds }
    }

    /// Returns whether `kind` is one of the kinds of the set.
    pub fn contains(&self, kind: JsSyntaxKind) -> (found: bool)
        ensures
            found == self.has_kind(kind),
    {
        let mut i: usize = 0;
        while i < self.kinds.len()
            invariant
                i <= self.kinds@.len(),
                forall|j: int| 0 <= j < i ==> !(#[trigger] self.kinds@[j]).same(kind),
            decreases self.kinds@.len() - i,
        {
            if self.kinds[i] == kind {
                assert(self@[i as int].same(kind));
                return true;
            }
            i = i + 1;
        }
        false
    }
}

/// Two kinds of the grammar are the same exactly if they have the same number, whatever else is
/// known of them. Any other kind is the same as itself alone.
pub proof fn law_kinds_are_told_apart(left: JsSyntaxKind, right: JsSyntaxKind)
    ensures
        left is Other && right is Other ==> (left.same(right) <==> left->Other_0.raw
            == right->Other_0.raw),
        !(left is Other && right is Other) ==> (left.same(right) <==> left == right),
{
}

/// What is known of a kind is what its spelling tells: a keyword has its text, and so has any other
/// token that is always spelled alike. Nothing else has a text.
pub proof fn law_spelling_tells_the_text(kind: JsSyntaxKind, text: &str)
    ensures
        kind matches JsSyntaxKind::Other(info) ==> {
            &&& kind.spec_is_keyword() <==> info.details.spelling is Keyword
            &&& info.details.spelling == Spelling::Keyword(text) ==> kind.fixed_text() == Some(
                text@,
            )
            &&& info.details.spelling == Spelling::Fixed(text) ==> kind.fixed_text() == Some(text@)
            &&& info.details.spelling is Varying <==> kind.fixed_text() is None
        },
        !(kind is Other) ==> !kind.spec_is_keyword() && kind.fixed_text() is None,
{
}

/// The unknown node that matches a kind has the number that the grammar gives for it, and no text.
/// Where the grammar gives none, it is the unknown node of the whole grammar. The unknown node that
/// matches an unknown node is that node.
pub proof fn law_unknown_node_has_its_number(kind: JsSyntaxKind)
    ensures
        ({
            let unknown = kind.spec_to_unknown();
            &&& kind is Other && kind->Other_0.details.unknown is Some ==> unknown is Other
                && unknown->Other_0.raw == kind->Other_0.details.unknown->0
                && unknown->Other_0.details.spelling is Varying
            &&& !(kind is Other && kind->Other_0.details.unknown is Some) ==> unknown
                == JsSyntaxKind::JS_UNKNOWN
            &&& unknown.spec_to_unknown() == unknown
        }),
{
}

/// A set without kinds holds none, one with a single kind holds what is the same as that, and one
/// made of the kinds of two others holds what either of them holds.
pub proof fn law_sets_hold_their_kinds(
    left: TokenSet,
    right: TokenSet,
    both: TokenSet,
    kind: JsSyntaxKind,
)
    ensures
        left@.len() == 0 ==> !left.has_kind(kind),
        left@.len() == 1 ==> left.has_kind(kind) == left@[0].same(kind),
        both@ == left@ + right@ ==> both.has_kind(kind) == (left.has_kind(kind) || right.has_kind(
            kind,
        )),
{
    if left@.len() == 1 {
        assert(left@[0].same(kind) ==> left.has_kind(kind));
    }
    if both@ == left@ + right@ {
        assert forall|i: int| 0 <= i < left@.len() && (#[trigger] left@[i]).same(kind) implies both.has_kind(
            kind,
        ) by {
            assert(both@[i].same(kind));
        }
        assert forall|i: int| 0 <= i < right@.len() && (#[trigger] right@[i]).same(kind) implies both.has_kind(
            kind,
        ) by {
            assert(both@[left@.len() + i].same(kind));
        }
        if both.has_kind(kind) {
            let i = choose|i: int| 0 <= i < both@.len() && (#[trigger] both@[i]).same(kind);
            if i < left@.len() {
                assert(left@[i].same(kind));
            } else {
                assert(right@[i - left@.len()].same(kind));
            }
        }
    }
}

} // verus!
