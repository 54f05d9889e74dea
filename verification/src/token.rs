//! Tokens of a function item, laid out flat.
//!
//! A function item reaches this library as a sequence of tokens in source
//! order.  A bracketed group is not a nested value: its opening and closing
//! brackets are tokens of their own, so that a part of the item is always a
//! range of positions.

use vstd::prelude::*;
use vstd::string::*;

verus! {

/// The three visible bracket shapes that can enclose a group of tokens.
#[derive(Clone, Copy, Debug, PartialEq, Eq, Structural)]
pub enum Delimiter {
    Parenthesis,
    Bracket,
    Brace,
}

/// What sort of token stands at a position.
#[derive(Clone, Copy, Debug, PartialEq, Eq, Structural)]
pub enum TokenKind {
    /// A word: an identifier or a keyword.
    Ident,
    /// A single punctuation character.
    Punct,
    /// A literal, kept as it was written.
    Literal,
    /// The opening bracket of a group.
    Open(Delimiter),
    /// The closing bracket of a group.
    Close(Delimiter),
}

/// One token.
///
/// `text` is the token as written.  For a bracket the text is not read: the
/// kind says which bracket it is.  `joint` is read for punctuation only, and
/// says that the next token follows without a gap, as the `-` of `->` does.
#[derive(Debug, PartialEq, Eq)]
pub struct Token {
    pub kind: TokenKind,
    pub text: String,
    pub joint: bool,
}

/// The mathematical value of a [`Token`]: its text as a sequence of
/// characters.
pub struct TokenView {
    pub kind: TokenKind,
    pub text: Seq<char>,
    pub joint: bool,
}

impl View for Token {
    type V = TokenView;

    open spec fn view(&self) -> TokenView {
        TokenView { kind: self.kind, text: self.text@, joint: self.joint }
    }
}

impl DeepView for Token {
    type V = TokenView;

    open spec fn deep_view(&self) -> TokenView {
        self@
    }
}

impl Clone for Token {
    fn clone(&self) -> (r: Self)
        ensures
            r == *self,
    {
        Token { kind: self.kind, text: self.text.clone(), joint: self.joint }
    }
}

impl TokenView {
    /// A word with the given text.
    pub open spec fn word(text: Seq<char>) -> TokenView {
        TokenView { kind: TokenKind::Ident, text, joint: false }
    }

    /// A punctuation character that is followed by a gap.
    pub open spec fn mark(text: Seq<char>) -> TokenView {
        TokenView { kind: TokenKind::Punct, text, joint: false }
    }

    /// An opening bracket.
    pub open spec fn opening(delimiter: Delimiter) -> TokenView {
        TokenView { kind: TokenKind::Open(delimiter), text: Seq::empty(), joint: false }
    }

    /// A closing bracket.
    pub open spec fn closing(delimiter: Delimiter) -> TokenView {
        TokenView { kind: TokenKind::Close(delimiter), text: Seq::empty(), joint: false }
    }

    /// Whether this token is the word `text`.
    pub open spec fn is_word(self, text: Seq<char>) -> bool {
        self.kind == TokenKind::Ident && self.text == text
    }

    /// Whether this token is the punctuation character `text`, whatever
    /// follows it.
    pub open spec fn is_punct(self, text: Seq<char>) -> bool {
        self.kind == TokenKind::Punct && self.text == text
    }
}

impl Token {
    /// A word: an identifier or a keyword.
    pub fn ident(text: &str) -> (r: Token)
        ensures
            r@ == TokenView::word(text@),
    {
        Token { kind: TokenKind::Ident, text: String::from_str(text), joint: false }
    }

    /// A punctuation character; `joint` says that the next token follows
    /// without a gap.
    pub fn punct(text: &str, joint: bool) -> (r: Token)
        ensures
            r@ == (TokenView { kind: TokenKind::Punct, text: text@, joint }),
    {
        Token { kind: TokenKind::Punct, text: String::from_str(text), joint }
    }

    /// A literal, as written.
    pub fn literal(text: &str) -> (r: Token)
        ensures
            r@ == (TokenView { kind: TokenKind::Literal, text: text@, joint: false }),
    {
        Token { kind: TokenKind::Literal, text: String::from_str(text), joint: false }
    }

    /// The opening bracket of a group.
    pub fn open(delimiter: Delimiter) -> (r: Token)
        ensures
            r@ == TokenView::opening(delimiter),
    {
        Token { kind: TokenKind::Open(delimiter), text: String::new(), joint: false }
    }

    /// The closing bracket of a group.
    pub fn close(delimiter: Delimiter) -> (r: Token)
        ensures
            r@ == TokenView::closing(delimiter),
    {
        Token { kind: TokenKind::Close(delimiter), text: String::new(), joint: false }
    }

    /// Whether this token is the word `text`.
    pub fn is_word(&self, text: &str) -> (r: bool)
        ensures
            r == self@.is_word(text@),
    {
        match self.kind {
            TokenKind::Ident => self.text == String::from_str(text),
            _ => false,
        }
    }

    /// Whether this token is the punctuation character `text`, whatever
    /// follows it.
    pub fn is_punct(&self, text: &str) -> (r: bool)
        ensures
            r == self@.is_punct(text@),
    {
        match self.kind {
            TokenKind::Punct => self.text == String::from_str(text),
            _ => false,
        }
    }
}

/// A range of positions in a token sequence: from `start` up to, and not
/// including, `end`.
#[derive(Clone, Copy, Debug, PartialEq, Eq, Structural)]
pub struct Span {
    pub start: usize,
    pub end: usize,
}

impl Span {
    /// Whether the range is in order and lies within the first `len`
    /// positions.
    pub open spec fn within(self, len: int) -> bool {
        self.start <= self.end <= len
    }

    /// The tokens of `t` that the range covers.
    pub open spec fn of(self, t: Seq<TokenView>) -> Seq<TokenView> {
        t.subrange(self.start as int, self.end as int)
    }
}

/// A position that an executable function found, as a mathematical integer.
pub open spec fn position(found: Option<usize>) -> Option<int> {
    match found {
        Some(at) => Some(at as int),
        None => None,
    }
}

/// A mathematical position, as an executable function holds it.
pub open spec fn index(found: Option<int>) -> Option<usize> {
    match found {
        Some(at) => Some(at as usize),
        None => None,
    }
}

/// Scans `t` from `at` up to `end` for the bracket that closes the innermost
/// of the brackets in `open`, which are all open at `at`, the last of them
/// opened last.  The result is the position of the bracket that closes the
/// first of them.  There is none where a closing bracket has another shape
/// than the one it closes, or where `end` comes first.
pub open spec fn close_from(t: Seq<TokenView>, at: int, end: int, open: Seq<Delimiter>) -> Option<
    int,
>
    decreases end - at,
{
    if at < 0 || at >= end || end > t.len() {
        None
    } else {
        match t[at].kind {
            TokenKind::Open(d) => close_from(t, at + 1, end, open.push(d)),
            TokenKind::Close(d) => {
                if open.len() == 0 || open.last() != d {
                    None
                } else if open.len() == 1 {
                    Some(at)
                } else {
                    close_from(t, at + 1, end, open.drop_last())
                }
            },
            _ => close_from(t, at + 1, end, open),
        }
    }
}

/// The position before `end` of the bracket that closes the one at `at`.
/// There is none where `t[at]` opens nothing, or where the tokens between do
/// not nest.
pub open spec fn matching_close(t: Seq<TokenView>, at: int, end: int) -> Option<int> {
    if 0 <= at < end <= t.len() {
        match t[at].kind {
            TokenKind::Open(d) => close_from(t, at + 1, end, seq![d]),
            _ => None,
        }
    } else {
        None
    }
}

/// The position after the token tree that starts at `at`: after the token
/// itself, or, where it opens a group, after the bracket that closes the
/// group.  No tree starts at a closing bracket.
pub open spec fn tree_end(t: Seq<TokenView>, at: int, end: int) -> Option<int> {
    if 0 <= at < end <= t.len() {
        match t[at].kind {
            TokenKind::Open(_) => match matching_close(t, at, end) {
                Some(close) => Some(close + 1),
                None => None,
            },
            TokenKind::Close(_) => None,
            _ => Some(at + 1),
        }
    } else {
        None
    }
}

/// The position reached from `at` after `n` whole token trees.
pub open spec fn after_trees(t: Seq<TokenView>, at: int, end: int, n: nat) -> Option<int>
    decreases n,
{
    if n == 0 {
        if 0 <= at <= end <= t.len() {
            Some(at)
        } else {
            None
        }
    } else {
        match tree_end(t, at, end) {
            Some(next) => after_trees(t, next, end, (n - 1) as nat),
            None => None,
        }
    }
}

/// How many whole token trees the tokens from `at` up to `end` are, or
/// `None` where they are not whole token trees.
pub open spec fn tree_count(t: Seq<TokenView>, at: int, end: int) -> Option<nat>
    decreases end - at,
{
    if at >= end {
        if at == end {
            Some(0)
        } else {
            None
        }
    } else {
        match tree_end(t, at, end) {
            Some(next) => if at < next <= end {
                match tree_count(t, next, end) {
                    Some(n) => Some(n + 1),
                    None => None,
                }
            } else {
                None
            },
            None => None,
        }
    }
}

/// Where the tokens from `at` up to `end` stop being whole token trees: the
/// position of the first token that starts no tree, or `None` where the range
/// is made of whole trees.
pub open spec fn first_unbalanced(t: Seq<TokenView>, at: int, end: int) -> Option<int>
    decreases end - at,
{
    if at >= end {
        None
    } else {
        match tree_end(t, at, end) {
            Some(next) => if at < next <= end {
                first_unbalanced(t, next, end)
            } else {
                Some(at)
            },
            None => Some(at),
        }
    }
}

/// Where the last of the whole token trees from `at` up to `end` starts.  It
/// is `at` where the range is empty or no whole tree starts at `at`.
pub open spec fn last_tree(t: Seq<TokenView>, at: int, end: int) -> int
    decreases end - at,
{
    if at >= end {
        at
    } else {
        match tree_end(t, at, end) {
            Some(next) => if at < next < end {
                last_tree(t, next, end)
            } else {
                at
            },
            None => at,
        }
    }
}

/// A closing bracket's position lies after the opening one and before `end`.
pub proof fn lemma_close_from_bounds(t: Seq<TokenView>, at: int, end: int, open: Seq<Delimiter>)
    ensures
        close_from(t, at, end, open) matches Some(close) ==> at <= close < end,
    decreases end - at,
{
    if at < 0 || at >= end || end > t.len() {
    } else {
        match t[at].kind {
            TokenKind::Open(d) => lemma_close_from_bounds(t, at + 1, end, open.push(d)),
            TokenKind::Close(d) => {
                if open.len() > 1 && open.last() == d {
                    lemma_close_from_bounds(t, at + 1, end, open.drop_last());
                }
            },
            _ => lemma_close_from_bounds(t, at + 1, end, open),
        }
    }
}

/// A token tree is not empty and ends by `end`.
pub proof fn lemma_tree_end_bounds(t: Seq<TokenView>, at: int, end: int)
    ensures
        tree_end(t, at, end) matches Some(next) ==> at < next <= end,
{
    if 0 <= at < end <= t.len() {
        match t[at].kind {
            TokenKind::Open(d) => lemma_close_from_bounds(t, at + 1, end, seq![d]),
            _ => {},
        }
    }
}

/// The bracket that a scan finds does not depend on how far the scan may go,
/// as long as it may go as far as the bracket.
pub proof fn lemma_close_from_any_end(
    t: Seq<TokenView>,
    at: int,
    near: int,
    far: int,
    open: Seq<Delimiter>,
)
    requires
        near <= far <= t.len(),
    ensures
        close_from(t, at, near, open) is Some ==> close_from(t, at, far, open) == close_from(
            t,
            at,
            near,
            open,
        ),
        close_from(t, at, far, open) matches Some(close) ==> (close < near ==> close_from(
            t,
            at,
            near,
            open,
        ) == Some(close)),
    decreases far - at,
{
    if 0 <= at < far {
        lemma_close_from_bounds(t, at, far, open);
        match t[at].kind {
            TokenKind::Open(d) => {
                lemma_close_from_bounds(t, at + 1, far, open.push(d));
                lemma_close_from_any_end(t, at + 1, near, far, open.push(d));
            },
            TokenKind::Close(d) => {
                if open.len() > 1 && open.last() == d {
                    lemma_close_from_bounds(t, at + 1, far, open.drop_last());
                    lemma_close_from_any_end(t, at + 1, near, far, open.drop_last());
                }
            },
            _ => {
                lemma_close_from_bounds(t, at + 1, far, open);
                lemma_close_from_any_end(t, at + 1, near, far, open);
            },
        }
    }
}

/// Where a token tree ends does not depend on how far one may look, as long
/// as one may look as far as its end.
pub proof fn lemma_tree_end_any_end(t: Seq<TokenView>, at: int, near: int, far: int)
    requires
        near <= far <= t.len(),
    ensures
        tree_end(t, at, near) is Some ==> tree_end(t, at, far) == tree_end(t, at, near),
        tree_end(t, at, far) matches Some(next) ==> (next <= near ==> tree_end(t, at, near)
            == Some(next)),
{
    if 0 <= at < far {
        match t[at].kind {
            TokenKind::Open(d) => {
                lemma_close_from_any_end(t, at + 1, near, far, seq![d]);
                lemma_close_from_bounds(t, at + 1, far, seq![d]);
            },
            _ => {},
        }
    }
}

/// How many more brackets open than close among the tokens from `from` up
/// to `to`.
pub open spec fn depth(t: Seq<TokenView>, from: int, to: int) -> int
    decreases to - from,
{
    if from >= to {
        0
    } else {
        match t[from].kind {
            TokenKind::Open(_) => 1 + depth(t, from + 1, to),
            TokenKind::Close(_) => depth(t, from + 1, to) - 1,
            _ => depth(t, from + 1, to),
        }
    }
}

/// The bracket that a scan finds is the first at which as many brackets have
/// closed as were open or have opened, and it has the shape of the first of
/// the brackets that were open.
pub proof fn lemma_close_from_depth(t: Seq<TokenView>, at: int, end: int, open: Seq<Delimiter>)
    requires
        open.len() > 0,
    ensures
        close_from(t, at, end, open) matches Some(close) ==> {
            &&& t[close].kind == TokenKind::Close(open[0])
            &&& open.len() + depth(t, at, close + 1) == 0
            &&& forall|k: int| at <= k <= close ==> open.len() + #[trigger] depth(t, at, k) > 0
        },
    decreases end - at,
{
    if !(at < 0 || at >= end || end > t.len()) {
        let here = match t[at].kind {
            TokenKind::Close(d) => open.last() == d && open.len() == 1,
            _ => false,
        };
        let inner = match t[at].kind {
            TokenKind::Open(d) => open.push(d),
            TokenKind::Close(_) => open.drop_last(),
            _ => open,
        };
        assert(depth(t, at, at) == 0);
        if here {
            assert(depth(t, at + 1, at + 1) == 0);
            assert(open.last() == open[0]);
        } else if close_from(t, at, end, open) is Some {
            let close = close_from(t, at, end, open)->0;
            assert(inner.len() > 0 && inner[0] == open[0]);
            assert(close_from(t, at + 1, end, inner) == Some(close));
            lemma_close_from_bounds(t, at + 1, end, inner);
            lemma_close_from_depth(t, at + 1, end, inner);
            assert(open.len() + depth(t, at, close + 1) == inner.len() + depth(
                t,
                at + 1,
                close + 1,
            ));
            assert forall|k: int| at <= k <= close implies open.len() + #[trigger] depth(t, at, k)
                > 0 by {
                if k > at {
                    assert(inner.len() + depth(t, at + 1, k) > 0);
                    assert(open.len() + depth(t, at, k) == inner.len() + depth(t, at + 1, k));
                }
            }
        }
    }
}

/// The bracket that closes the one at `at` has its shape, and is the first
/// bracket after it at which as many brackets have closed as have opened
/// from `at` on.
pub proof fn matching_close_is_first_at_depth_zero(t: Seq<TokenView>, at: int, end: int)
    ensures
        matching_close(t, at, end) matches Some(close) ==> {
            &&& at < close < end
            &&& t[at].kind matches TokenKind::Open(d) && t[close].kind == TokenKind::Close(d)
            &&& depth(t, at, close + 1) == 0
            &&& forall|k: int| at < k <= close ==> #[trigger] depth(t, at, k) > 0
        },
{
    if 0 <= at < end <= t.len() {
        match t[at].kind {
            TokenKind::Open(d) => {
                lemma_close_from_bounds(t, at + 1, end, seq![d]);
                lemma_close_from_depth(t, at + 1, end, seq![d]);
                match matching_close(t, at, end) {
                    Some(close) => {
                        assert forall|k: int| at < k <= close implies #[trigger] depth(t, at, k)
                            > 0 by {
                            assert(1 + depth(t, at + 1, k) > 0);
                        }
                    },
                    None => {},
                }
            },
            _ => {},
        }
    }
}

/// Walking whole token trees from `at` leads to a position from `at` on and
/// not after `end`.
pub proof fn lemma_after_trees_bounds(t: Seq<TokenView>, at: int, end: int, n: nat)
    ensures
        after_trees(t, at, end, n) matches Some(next) ==> 0 <= at <= next <= end <= t.len(),
    decreases n,
{
    if n > 0 {
        lemma_tree_end_bounds(t, at, end);
        match tree_end(t, at, end) {
            Some(next) => lemma_after_trees_bounds(t, next, end, (n - 1) as nat),
            None => {},
        }
    }
}

/// Where the tokens from `at` on are whole token trees, a tree starts at
/// `at`, and the tokens after it are whole token trees.
pub proof fn lemma_balanced_step(t: Seq<TokenView>, at: int, end: int)
    requires
        first_unbalanced(t, at, end) is None,
        at < end,
    ensures
        tree_end(t, at, end) matches Some(next) && at < next <= end && first_unbalanced(
            t,
            next,
            end,
        ) is None,
{
    lemma_tree_end_bounds(t, at, end);
}

/// Where the tokens from `at` on are whole token trees, so are the tokens
/// that are left after walking some of the trees.
pub proof fn lemma_balanced_after_trees(t: Seq<TokenView>, at: int, end: int, n: nat)
    requires
        first_unbalanced(t, at, end) is None,
    ensures
        after_trees(t, at, end, n) matches Some(next) ==> first_unbalanced(t, next, end) is None,
    decreases n,
{
    if n > 0 {
        match tree_end(t, at, end) {
            Some(next) => {
                lemma_tree_end_bounds(t, at, end);
                lemma_balanced_step(t, at, end);
                lemma_balanced_after_trees(t, next, end, (n - 1) as nat);
            },
            None => {},
        }
    }
}

/// Finds the bracket before `end` that closes the one at `at`.
pub fn find_close(tokens: &Vec<Token>, at: usize, end: usize) -> (r: Option<usize>)
    ensures
        position(r) == matching_close(tokens.deep_view(), at as int, end as int),
        r matches Some(close) ==> at < close < end,
{
    if !(at < end && end <= tokens.len()) {
        return None;
    }
    let ghost t = tokens.deep_view();
    let mut open: Vec<Delimiter> = Vec::new();
    match tokens[at].kind {
        TokenKind::Open(d) => {
            open.push(d);
        },
        _ => {
            return None;
        },
    }
    let mut i: usize = at + 1;
    while i < end
        invariant
            at < i <= end <= tokens.len(),
            t == tokens.deep_view(),
            open@.len() >= 1,
            close_from(t, i as int, end as int, open@) == matching_close(t, at as int, end as int),
        decreases end - i,
    {
        match tokens[i].kind {
            TokenKind::Open(d) => {
                open.push(d);
            },
            TokenKind::Close(d) => {
                let last = open[open.len() - 1];
                if last != d {
                    return None;
                }
                if open.len() == 1 {
                    return Some(i);
                }
                open.pop();
            },
            _ => {},
        }
        i = i + 1;
    }
    None
}

/// Finds the position after the token tree that starts at `at`.
pub fn find_tree_end(tokens: &Vec<Token>, at: usize, end: usize) -> (r: Option<usize>)
    ensures
        position(r) == tree_end(tokens.deep_view(), at as int, end as int),
        r matches Some(next) ==> at < next <= end,
{
    if !(at < end && end <= tokens.len()) {
        return None;
    }
    match tokens[at].kind {
        TokenKind::Open(_) => match find_close(tokens, at, end) {
            Some(close) => Some(close + 1),
            None => None,
        },
        TokenKind::Close(_) => None,
        _ => Some(at + 1),
    }
}

/// Walks `n` whole token trees from `at`.
pub fn skip_trees(tokens: &Vec<Token>, at: usize, end: usize, n: usize) -> (r: Option<usize>)
    ensures
        position(r) == after_trees(tokens.deep_view(), at as int, end as int, n as nat),
        r matches Some(next) ==> at <= next <= end,
        r matches Some(next) ==> (next == at <==> n == 0),
{
    if !(at <= end && end <= tokens.len()) {
        proof {
            lemma_tree_end_bounds(tokens.deep_view(), at as int, end as int);
        }
        return None;
    }
    let ghost t = tokens.deep_view();
    let mut here: usize = at;
    let mut left: usize = n;
    while left > 0
        invariant
            at <= here <= end <= tokens.len(),
            left <= n,
            here == at <==> left == n,
            t == tokens.deep_view(),
            after_trees(t, here as int, end as int, left as nat) == after_trees(
                t,
                at as int,
                end as int,
                n as nat,
            ),
        decreases left,
    {
        match find_tree_end(tokens, here, end) {
            Some(next) => {
                here = next;
                left = left - 1;
            },
            None => {
                return None;
            },
        }
    }
    Some(here)
}

/// Counts the whole token trees from `at` up to `end`.
pub fn count_trees(tokens: &Vec<Token>, at: usize, end: usize) -> (r: Option<usize>)
    ensures
        match r {
            Some(n) => tree_count(tokens.deep_view(), at as int, end as int) == Some(n as nat),
            None => tree_count(tokens.deep_view(), at as int, end as int) is None,
        },
        r matches Some(n) ==> at <= end && n <= end - at,
{
    if at > end {
        return None;
    }
    let ghost t = tokens.deep_view();
    let mut here: usize = at;
    let mut n: usize = 0;
    while here < end
        invariant
            at <= here <= end,
            n <= here - at,
            t == tokens.deep_view(),
            match tree_count(t, here as int, end as int) {
                Some(m) => tree_count(t, at as int, end as int) == Some((n + m) as nat),
                None => tree_count(t, at as int, end as int) is None,
            },
        decreases end - here,
    {
        match find_tree_end(tokens, here, end) {
            Some(next) => {
                here = next;
                n = n + 1;
            },
            None => {
                return None;
            },
        }
    }
    Some(n)
}

/// Checks that the tokens are whole token trees, and says where they first
/// are not.
pub fn check_nesting(tokens: &Vec<Token>) -> (r: Option<usize>)
    ensures
        position(r) == first_unbalanced(tokens.deep_view(), 0, tokens.len() as int),
        r matches Some(bad) ==> bad < tokens.len(),
{
    let ghost t = tokens.deep_view();
    let end: usize = tokens.len();
    let mut here: usize = 0;
    while here < end
        invariant
            here <= end == tokens.len(),
            t == tokens.deep_view(),
            first_unbalanced(t, here as int, end as int) == first_unbalanced(t, 0, end as int),
        decreases end - here,
    {
        match find_tree_end(tokens, here, end) {
            Some(next) => {
                here = next;
            },
            None => {
                return Some(here);
            },
        }
    }
    None
}

/// Finds where the last of the whole token trees starts.
pub fn find_last_tree(tokens: &Vec<Token>) -> (r: usize)
    ensures
        r == last_tree(tokens.deep_view(), 0, tokens.len() as int),
        r <= tokens.len(),
{
    let ghost t = tokens.deep_view();
    let end: usize = tokens.len();
    let mut here: usize = 0;
    while here < end
        invariant
            here <= end == tokens.len(),
            t == tokens.deep_view(),
            last_tree(t, here as int, end as int) == last_tree(t, 0, end as int),
        decreases end - here,
    {
        match find_tree_end(tokens, here, end) {
            Some(next) => {
                if next < end {
                    here = next;
                } else {
                    return here;
                }
            },
            None => {
                return here;
            },
        }
    }
    here
}

/// How a token is written: a bracket by its shape, any other token by its
/// text.
pub open spec fn spelling(token: TokenView) -> Seq<char> {
    match token.kind {
        TokenKind::Open(Delimiter::Parenthesis) => "("@,
        TokenKind::Open(Delimiter::Bracket) => "["@,
        TokenKind::Open(Delimiter::Brace) => "{"@,
        TokenKind::Close(Delimiter::Parenthesis) => ")"@,
        TokenKind::Close(Delimiter::Bracket) => "]"@,
        TokenKind::Close(Delimiter::Brace) => "}"@,
        _ => token.text,
    }
}

/// What is written after a token: nothing after joint punctuation, one blank
/// after anything else.
pub open spec fn gap(token: TokenView) -> Seq<char> {
    if token.kind == TokenKind::Punct && token.joint {
        Seq::empty()
    } else {
        " "@
    }
}

/// The tokens written out in order, each followed by its gap.
pub open spec fn rendered(t: Seq<TokenView>) -> Seq<char>
    decreases t.len(),
{
    if t.len() == 0 {
        Seq::empty()
    } else {
        rendered(t.drop_last()) + spelling(t.last()) + gap(t.last())
    }
}

/// Tokens that are written one after another give the texts of the parts
/// one after another.
pub proof fn lemma_rendered_joined(a: Seq<TokenView>, b: Seq<TokenView>)
    ensures
        rendered(a + b) == rendered(a) + rendered(b),
    decreases b.len(),
{
    if b.len() == 0 {
        assert(a + b =~= a);
        assert(rendered(a) + rendered(b) =~= rendered(a));
    } else {
        lemma_rendered_joined(a, b.drop_last());
        assert((a + b).drop_last() =~= a + b.drop_last());
        assert((a + b).last() == b.last());
        assert(rendered(a + b) =~= rendered(a) + rendered(b));
    }
}

/// Writes out the tokens from `start` up to `end`.
pub fn render_range(tokens: &Vec<Token>, start: usize, end: usize) -> (text: String)
    requires
        start <= end <= tokens.len(),
    ensures
        text@ == rendered(tokens.deep_view().subrange(start as int, end as int)),
{
    let ghost t = tokens.deep_view();
    let mut text = String::new();
    let mut i: usize = start;
    while i < end
        invariant
            start <= i <= end <= tokens.len(),
            t == tokens.deep_view(),
            text@ == rendered(t.subrange(start as int, i as int)),
        decreases end - i,
    {
        let token = &tokens[i];
        match token.kind {
            TokenKind::Open(Delimiter::Parenthesis) => text.append("("),
            TokenKind::Open(Delimiter::Bracket) => text.append("["),
            TokenKind::Open(Delimiter::Brace) => text.append("{"),
            TokenKind::Close(Delimiter::Parenthesis) => text.append(")"),
            TokenKind::Close(Delimiter::Bracket) => text.append("]"),
            TokenKind::Close(Delimiter::Brace) => text.append("}"),
            _ => text.append(token.text.as_str()),
        }
        match token.kind {
            TokenKind::Punct => {
                if !token.joint {
                    text.append(" ");
                }
            },
            _ => text.append(" "),
        }
        proof {
            assert(t.subrange(start as int, i + 1).drop_last() =~= t.subrange(
                start as int,
                i as int,
            ));
        }
        i = i + 1;
    }
    text
}

/// Writes out all the tokens.
pub fn render(tokens: &Vec<Token>) -> (text: String)
    ensures
        text@ == rendered(tokens.deep_view()),
{
    proof {
        assert(tokens.deep_view().subrange(0, tokens.len() as int) =~= tokens.deep_view());
    }
    render_range(tokens, 0, tokens.len())
}

} // verus!
