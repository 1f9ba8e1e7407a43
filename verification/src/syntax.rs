//! The syntax tree that the instrumentation works on.
//!
//! The tree holds what the instrumentation reads of a module, an implementation block or a
//! function, and carries the rest through as token streams.

use crate::pattern::texts;
use crate::pattern::Pat;
use crate::pattern::PatView;
use crate::tokens::stream_tokens;
use crate::tokens::TokenView;
use proc_macro2::TokenStream;
use vstd::prelude::*;

verus! {

/// One segment of a path: its name, and the tokens of its generic arguments as written.
#[derive(Debug, PartialEq, Eq)]
pub struct PathSegment {
    pub ident: String,
    pub arguments: Vec<String>,
}

/// The mathematical value of a `PathSegment`.
pub struct PathSegmentView {
    pub ident: Seq<char>,
    pub arguments: Seq<Seq<char>>,
}

impl View for PathSegment {
    type V = PathSegmentView;

    open spec fn view(&self) -> PathSegmentView {
        PathSegmentView { ident: self.ident@, arguments: texts(self.arguments@) }
    }
}

/// A path such as `std::fmt::Debug` or `::Bar`.
#[derive(Debug, PartialEq, Eq)]
pub struct Path {
    /// Whether the path starts with `::`.
    pub leading_colon: bool,
    pub segments: Vec<PathSegment>,
}

/// The mathematical value of a `Path`.
pub struct PathView {
    pub leading_colon: bool,
    pub segments: Seq<PathSegmentView>,
}

impl View for Path {
    type V = PathView;

    open spec fn view(&self) -> PathView {
        PathView {
            leading_colon: self.leading_colon,
            segments: self.segments@.map_values(|s: PathSegment| s@),
        }
    }
}

/// One piece of a type: a token as written, or a path.
#[derive(Debug, PartialEq, Eq)]
pub enum TypePart {
    Token(String),
    Path(Path),
}

/// The mathematical value of a `TypePart`.
pub enum TypePartView {
    Token(Seq<char>),
    Path(PathView),
}

impl View for TypePart {
    type V = TypePartView;

    open spec fn view(&self) -> TypePartView {
        match *self {
            TypePart::Token(text) => TypePartView::Token(text@),
            TypePart::Path(path) => TypePartView::Path(path@),
        }
    }
}

/// A type, as the pieces it is written with from left to right.
///
/// The paths among the pieces are those that are not themselves inside the generic arguments
/// of another path.
#[derive(Debug, PartialEq, Eq)]
pub struct Type {
    /// Whether the type is of the form `impl Trait`, which has no name that could be written
    /// elsewhere.
    pub impl_trait: bool,
    pub parts: Vec<TypePart>,
}

/// The mathematical value of a `Type`.
pub struct TypeView {
    pub impl_trait: bool,
    pub parts: Seq<TypePartView>,
}

impl View for Type {
    type V = TypeView;

    open spec fn view(&self) -> TypeView {
        TypeView { impl_trait: self.impl_trait, parts: self.parts@.map_values(|p: TypePart| p@) }
    }
}

/// The view of a type that may be absent.
pub open spec fn optional_type_view(ty: Option<Type>) -> Option<TypeView> {
    match ty {
        Some(ty) => Some(ty@),
        None => None,
    }
}

/// One parameter of a function.
#[derive(Debug, PartialEq, Eq)]
pub enum FnArg {
    /// `&self` or `&mut self`
    SelfRef,
    /// `self`
    SelfValue,
    /// A pattern with its type, `pat: Type`.
    Captured(Pat),
    /// A pattern alone, as in a closure.
    Inferred(Pat),
    /// A type alone.
    Ignored,
}

/// The mathematical value of a `FnArg`.
pub enum FnArgView {
    SelfRef,
    SelfValue,
    Captured(PatView),
    Inferred(PatView),
    Ignored,
}

impl View for FnArg {
    type V = FnArgView;

    open spec fn view(&self) -> FnArgView {
        match *self {
            FnArg::SelfRef => FnArgView::SelfRef,
            FnArg::SelfValue => FnArgView::SelfValue,
            FnArg::Captured(pat) => FnArgView::Captured(pat@),
            FnArg::Inferred(pat) => FnArgView::Inferred(pat@),
            FnArg::Ignored => FnArgView::Ignored,
        }
    }
}

/// What a function is declared to return.
#[derive(Debug, PartialEq, Eq)]
pub enum ReturnType {
    /// Nothing is written: the function returns `()`.
    Default,
    /// `-> Type`
    Type(Type),
}

/// The mathematical value of a `ReturnType`.
pub enum ReturnTypeView {
    Default,
    Type(TypeView),
}

impl View for ReturnType {
    type V = ReturnTypeView;

    open spec fn view(&self) -> ReturnTypeView {
        match *self {
            ReturnType::Default => ReturnTypeView::Default,
            ReturnType::Type(ty) => ReturnTypeView::Type(ty@),
        }
    }
}

/// The parameters and the return type of a function.
#[derive(Debug, PartialEq, Eq)]
pub struct FnDecl {
    pub inputs: Vec<FnArg>,
    pub output: ReturnType,
}

/// The mathematical value of a `FnDecl`.
pub struct FnDeclView {
    pub inputs: Seq<FnArgView>,
    pub output: ReturnTypeView,
}

impl View for FnDecl {
    type V = FnDeclView;

    open spec fn view(&self) -> FnDeclView {
        FnDeclView { inputs: self.inputs@.map_values(|a: FnArg| a@), output: self.output@ }
    }
}

/// An attribute: the segments of its path, and the tokens behind the path.
#[derive(Debug)]
pub struct Attribute {
    pub path: Vec<String>,
    pub tts: TokenStream,
}

/// The mathematical value of an `Attribute`.
pub struct AttributeView {
    pub path: Seq<Seq<char>>,
    pub tts: Seq<TokenView>,
}

impl View for Attribute {
    type V = AttributeView;

    open spec fn view(&self) -> AttributeView {
        AttributeView { path: texts(self.path@), tts: stream_tokens(self.tts) }
    }
}

/// The views of a sequence of attributes.
pub open spec fn attribute_views(attrs: Seq<Attribute>) -> Seq<AttributeView> {
    attrs.map_values(|a: Attribute| a@)
}

/// One trace statement: a call of the logging sink at trace level.
///
/// Its arguments are the format string, then the indentation, which is a run of `marker` as
/// wide as the depth noted asks for, then the path of the enclosing module, then the values
/// of `args` in order.
#[derive(Debug, PartialEq, Eq)]
pub struct TraceStatement {
    pub format: String,
    pub marker: char,
    pub args: Vec<String>,
}

/// The mathematical value of a `TraceStatement`.
pub struct TraceStatementView {
    pub format: Seq<char>,
    pub marker: char,
    pub args: Seq<Seq<char>>,
}

impl View for TraceStatement {
    type V = TraceStatementView;

    open spec fn view(&self) -> TraceStatementView {
        TraceStatementView { format: self.format@, marker: self.marker, args: texts(self.args@) }
    }
}

/// One step of an instrumented function body.
#[derive(Clone, Copy, Debug, PartialEq, Eq, Structural)]
pub enum Step {
    /// The depth of the thread is raised by one and the depth reached is noted.
    RaiseDepth,
    /// The entry is traced, indented for the depth noted.
    TraceEntry,
    /// The body as it was before is run once and its value is kept.
    RunBody,
    /// The depth of the thread as it is now is noted.
    ReadDepth,
    /// The exit is traced, indented for the depth noted.
    TraceExit,
    /// The depth of the thread is lowered by one.
    LowerDepth,
    /// The value kept is the value of the body.
    YieldValue,
}

/// An instrumented function body: the steps it takes, in order, and what they work on.
#[derive(Debug)]
pub struct TracedBlock {
    /// What the body does, step by step.
    pub steps: Vec<Step>,
    pub begin_trace: TraceStatement,
    pub end_trace: TraceStatement,
    /// The type under which the value of `block` is kept; `None` leaves it to inference.
    pub return_type: Option<Type>,
    /// The body as it was before.
    pub block: Block,
}

/// A function body.
#[derive(Debug)]
pub enum Block {
    /// A body as written, by its tokens.
    Written(TokenStream),
    /// A body that has been instrumented.
    Traced(Box<TracedBlock>),
}

/// The mathematical value of a `TracedBlock`.
pub struct TracedBlockView {
    pub steps: Seq<Step>,
    pub begin_trace: TraceStatementView,
    pub end_trace: TraceStatementView,
    pub return_type: Option<TypeView>,
    pub block: BlockView,
}

/// The mathematical value of a `Block`.
pub enum BlockView {
    Written(Seq<TokenView>),
    Traced(Box<TracedBlockView>),
}

/// The mathematical value of `block`.
pub open spec fn block_view(block: Block) -> BlockView
    decreases block,
{
    match block {
        Block::Written(tokens) => BlockView::Written(stream_tokens(tokens)),
        Block::Traced(traced) => BlockView::Traced(
            Box::new(
                TracedBlockView {
                    steps: traced.steps@,
                    begin_trace: traced.begin_trace@,
                    end_trace: traced.end_trace@,
                    return_type: optional_type_view(traced.return_type),
                    block: block_view(traced.block),
                },
            ),
        ),
    }
}

impl View for Block {
    type V = BlockView;

    open spec fn view(&self) -> BlockView {
        block_view(*self)
    }
}

impl View for TracedBlock {
    type V = TracedBlockView;

    open spec fn view(&self) -> TracedBlockView {
        TracedBlockView {
            steps: self.steps@,
            begin_trace: self.begin_trace@,
            end_trace: self.end_trace@,
            return_type: optional_type_view(self.return_type),
            block: block_view(self.block),
        }
    }
}

/// A function or a method.
#[derive(Debug)]
pub struct ItemFn {
    pub attrs: Vec<Attribute>,
    pub ident: String,
    pub decl: FnDecl,
    pub block: Block,
}

/// The mathematical value of an `ItemFn`.
pub struct ItemFnView {
    pub attrs: Seq<AttributeView>,
    pub ident: Seq<char>,
    pub decl: FnDeclView,
    pub block: BlockView,
}

impl View for ItemFn {
    type V = ItemFnView;

    open spec fn view(&self) -> ItemFnView {
        ItemFnView {
            attrs: attribute_views(self.attrs@),
            ident: self.ident@,
            decl: self.decl@,
            block: self.block@,
        }
    }
}

/// An item of an implementation block.
#[derive(Debug)]
pub enum ImplItem {
    Method(ItemFn),
    /// Anything that is not a method.
    Other,
}

/// The mathematical value of an `ImplItem`.
pub enum ImplItemView {
    Method(ItemFnView),
    Other,
}

impl View for ImplItem {
    type V = ImplItemView;

    open spec fn view(&self) -> ImplItemView {
        match *self {
            ImplItem::Method(method) => ImplItemView::Method(method@),
            ImplItem::Other => ImplItemView::Other,
        }
    }
}

/// The views of a sequence of items of an implementation block.
pub open spec fn impl_item_views(items: Seq<ImplItem>) -> Seq<ImplItemView> {
    items.map_values(|i: ImplItem| i@)
}

/// An implementation block.
#[derive(Debug)]
pub struct ItemImpl {
    pub attrs: Vec<Attribute>,
    /// The type that the block implements for.
    pub self_ty: Type,
    pub items: Vec<ImplItem>,
}

/// The mathematical value of an `ItemImpl`.
pub struct ItemImplView {
    pub attrs: Seq<AttributeView>,
    pub self_ty: TypeView,
    pub items: Seq<ImplItemView>,
}

impl View for ItemImpl {
    type V = ItemImplView;

    open spec fn view(&self) -> ItemImplView {
        ItemImplView {
            attrs: attribute_views(self.attrs@),
            self_ty: self.self_ty@,
            items: impl_item_views(self.items@),
        }
    }
}

/// A module, by the items in it.
#[derive(Debug)]
pub struct ItemMod {
    pub items: Vec<Item>,
}

/// Anything that a marker can be attached to.
#[derive(Debug)]
pub enum Item {
    Fn(ItemFn),
    Impl(ItemImpl),
    Mod(ItemMod),
    /// Anything that is no function, implementation block or module.
    Other,
}

/// The mathematical value of an `ItemMod`.
pub struct ItemModView {
    pub items: Seq<ItemView>,
}

/// The mathematical value of an `Item`.
pub enum ItemView {
    Fn(ItemFnView),
    Impl(ItemImplView),
    Mod(ItemModView),
    Other,
}

/// The mathematical value of `item`.
pub open spec fn item_view(item: Item) -> ItemView
    decreases item,
{
    match item {
        Item::Fn(function) => ItemView::Fn(function@),
        Item::Impl(block) => ItemView::Impl(block@),
        Item::Mod(module) => ItemView::Mod(ItemModView { items: item_views(module.items@) }),
        Item::Other => ItemView::Other,
    }
}

/// The mathematical values of a sequence of items.
pub open spec fn item_views(items: Seq<Item>) -> Seq<ItemView>
    decreases items,
{
    Seq::new(items.len(), |i: int| if 0 <= i < items.len() { item_view(items[i]) } else { ItemView::Other })
}

impl View for Item {
    type V = ItemView;

    open spec fn view(&self) -> ItemView {
        item_view(*self)
    }
}

impl View for ItemMod {
    type V = ItemModView;

    open spec fn view(&self) -> ItemModView {
        ItemModView { items: item_views(self.items@) }
    }
}

/// The words of `words` in order, with `separator` between each two of them.
pub open spec fn joined(words: Seq<Seq<char>>, separator: Seq<char>) -> Seq<char>
    decreases words.len(),
{
    if words.len() == 0 {
        Seq::empty()
    } else if words.len() == 1 {
        words[0]
    } else {
        joined(words.drop_last(), separator) + separator + words.last()
    }
}

/// The tokens that a path segment is written with.
pub open spec fn segment_words(segment: PathSegmentView) -> Seq<Seq<char>> {
    seq![segment.ident] + segment.arguments
}

/// The tokens that the segments of a path are written with, `::` between each two segments.
pub open spec fn segments_words(segments: Seq<PathSegmentView>) -> Seq<Seq<char>>
    decreases segments.len(),
{
    if segments.len() == 0 {
        Seq::empty()
    } else if segments.len() == 1 {
        segment_words(segments[0])
    } else {
        segments_words(segments.drop_last()) + seq!["::"@] + segment_words(segments.last())
    }
}

/// The tokens that a path is written with.
pub open spec fn path_words(path: PathView) -> Seq<Seq<char>> {
    if path.leading_colon {
        seq!["::"@] + segments_words(path.segments)
    } else {
        segments_words(path.segments)
    }
}

/// The tokens that one piece of a type is written with.
pub open spec fn part_words(part: TypePartView) -> Seq<Seq<char>> {
    match part {
        TypePartView::Token(text) => seq![text],
        TypePartView::Path(path) => path_words(path),
    }
}

/// The tokens that the pieces of a type are written with, in order.
pub open spec fn parts_words(parts: Seq<TypePartView>) -> Seq<Seq<char>>
    decreases parts.len(),
{
    if parts.len() == 0 {
        Seq::empty()
    } else {
        parts_words(parts.drop_last()) + part_words(parts.last())
    }
}

/// A type as text: its tokens with one space between each two.
pub open spec fn type_text(ty: TypeView) -> Seq<char> {
    joined(parts_words(ty.parts), " "@)
}

/// A copy of `strings`.
pub fn duplicate_strings(strings: &Vec<String>) -> (copy: Vec<String>)
    ensures
        texts(copy@) == texts(strings@),
{
    let mut copy: Vec<String> = Vec::new();
    let mut i: usize = 0;
    while i < strings.len()
        invariant
            0 <= i <= strings.len(),
            texts(copy@) == texts(strings@).take(i as int),
        decreases strings.len() - i,
    {
        let ghost so_far = copy@;
        copy.push(strings[i].clone());
        assert(texts(copy@) =~= texts(so_far).push(strings@[i as int]@));
        assert(texts(copy@) =~= texts(strings@).take(i + 1));
        i = i + 1;
    }
    assert(texts(strings@).take(i as int) =~= texts(strings@));
    copy
}

/// The strings of `words` in order, with `separator` between each two of them.
pub fn join(words: &Vec<String>, separator: &str) -> (text: String)
    ensures
        text@ == joined(texts(words@), separator@),
{
    let mut text = String::new();
    let mut i: usize = 0;
    assert(texts(words@).take(0) =~= Seq::empty());
    while i < words.len()
        invariant
            0 <= i <= words.len(),
            text@ == joined(texts(words@).take(i as int), separator@),
        decreases words.len() - i,
    {
        let ghost before = text@;
        if i > 0 {
            text.append(separator);
        }
        text.append(words[i].as_str());
        proof {
            let now = texts(words@).take(i + 1);
            assert(now.drop_last() =~= texts(words@).take(i as int));
            assert(now.last() == words@[i as int]@);
            if i == 0 {
                assert(text@ =~= words@[0]@);
            }
        }
        i = i + 1;
    }
    assert(texts(words@).take(i as int) =~= texts(words@));
    text
}

impl PathSegment {
    /// A copy of this segment.
    pub fn duplicate(&self) -> (copy: PathSegment)
        ensures
            copy@ == self@,
    {
        PathSegment { ident: self.ident.clone(), arguments: duplicate_strings(&self.arguments) }
    }

    /// Appends to `words` the tokens that this segment is written with.
    pub fn push_words(&self, words: &mut Vec<String>)
        ensures
            texts(final(words)@) == texts(old(words)@) + segment_words(self@),
    {
        let ghost before = texts(words@);
        words.push(self.ident.clone());
        assert(texts(words@) =~= before + seq![self.ident@]);
        let mut i: usize = 0;
        assert(self.arguments@.take(0) =~= Seq::empty());
        while i < self.arguments.len()
            invariant
                0 <= i <= self.arguments.len(),
                texts(words@) == before + seq![self.ident@] + texts(self.arguments@).take(i as int),
            decreases self.arguments.len() - i,
        {
            let ghost so_far = texts(words@);
            words.push(self.arguments[i].clone());
            assert(texts(words@) =~= so_far.push(self.arguments@[i as int]@));
            assert(texts(self.arguments@).take(i + 1) =~= texts(self.arguments@).take(
                i as int,
            ).push(self.arguments@[i as int]@));
            assert(texts(words@) =~= before + seq![self.ident@] + texts(self.arguments@).take(
                i + 1,
            ));
            i = i + 1;
        }
        assert(texts(self.arguments@).take(i as int) =~= texts(self.arguments@));
        assert(before + seq![self.ident@] + texts(self.arguments@) =~= before + segment_words(
            self@,
        ));
    }
}

impl Path {
    /// A copy of this path.
    pub fn duplicate(&self) -> (copy: Path)
        ensures
            copy@ == self@,
    {
        let mut segments: Vec<PathSegment> = Vec::new();
        let mut i: usize = 0;
        while i < self.segments.len()
            invariant
                0 <= i <= self.segments.len(),
                segments@.map_values(|s: PathSegment| s@) == self@.segments.take(i as int),
            decreases self.segments.len() - i,
        {
            let ghost so_far = segments@;
            segments.push(self.segments[i].duplicate());
            assert(segments@.map_values(|s: PathSegment| s@) =~= so_far.map_values(
                |s: PathSegment| s@,
            ).push(self.segments@[i as int]@));
            assert(segments@.map_values(|s: PathSegment| s@) =~= self@.segments.take(i + 1));
            i = i + 1;
        }
        assert(self@.segments.take(i as int) =~= self@.segments);
        Path { leading_colon: self.leading_colon, segments }
    }

    /// Appends to `words` the tokens that this path is written with.
    pub fn push_words(&self, words: &mut Vec<String>)
        ensures
            texts(final(words)@) == texts(old(words)@) + path_words(self@),
    {
        let ghost before = texts(words@);
        if self.leading_colon {
            words.push(String::from_str("::"));
            assert(texts(words@) =~= before + seq!["::"@]);
        }
        let ghost start = texts(words@);
        let mut i: usize = 0;
        assert(self@.segments.take(0) =~= Seq::empty());
        assert(start + Seq::<Seq<char>>::empty() =~= start);
        while i < self.segments.len()
            invariant
                0 <= i <= self.segments.len(),
                texts(words@) == start + segments_words(self@.segments.take(i as int)),
            decreases self.segments.len() - i,
        {
            let ghost done = segments_words(self@.segments.take(i as int));
            if i > 0 {
                words.push(String::from_str("::"));
                assert(texts(words@) =~= start + done + seq!["::"@]);
            }
            let ghost so_far = texts(words@);
            self.segments[i].push_words(words);
            proof {
                let now = self@.segments.take(i + 1);
                assert(now.drop_last() =~= self@.segments.take(i as int));
                assert(now.last() == self.segments@[i as int]@);
                if i > 0 {
                    assert(start + done + seq!["::"@] + segment_words(now.last()) =~= start + (done
                        + seq!["::"@] + segment_words(now.last())));
                } else {
                    assert(done =~= Seq::empty());
                    assert(start + segment_words(now.last()) =~= so_far + segment_words(
                        now.last(),
                    ));
                }
            }
            i = i + 1;
        }
        assert(self@.segments.take(i as int) =~= self@.segments);
        assert(before + seq!["::"@] + segments_words(self@.segments) =~= before + (seq!["::"@]
            + segments_words(self@.segments)));
    }
}

impl TypePart {
    /// A copy of this piece.
    pub fn duplicate(&self) -> (copy: TypePart)
        ensures
            copy@ == self@,
    {
        match self {
            TypePart::Token(text) => TypePart::Token(text.clone()),
            TypePart::Path(path) => TypePart::Path(path.duplicate()),
        }
    }

    /// Appends to `words` the tokens that this piece is written with.
    pub fn push_words(&self, words: &mut Vec<String>)
        ensures
            texts(final(words)@) == texts(old(words)@) + part_words(self@),
    {
        let ghost before = texts(words@);
        match self {
            TypePart::Token(text) => {
                words.push(text.clone());
                assert(texts(words@) =~= before + seq![text@]);
            },
            TypePart::Path(path) => {
                path.push_words(words);
            },
        }
    }
}

impl Type {
    /// A copy of this type.
    pub fn duplicate(&self) -> (copy: Type)
        ensures
            copy@ == self@,
    {
        let mut parts: Vec<TypePart> = Vec::new();
        let mut i: usize = 0;
        while i < self.parts.len()
            invariant
                0 <= i <= self.parts.len(),
                parts@.map_values(|p: TypePart| p@) == self@.parts.take(i as int),
            decreases self.parts.len() - i,
        {
            let ghost so_far = parts@;
            parts.push(self.parts[i].duplicate());
            assert(parts@.map_values(|p: TypePart| p@) =~= so_far.map_values(|p: TypePart| p@).push(
                self.parts@[i as int]@,
            ));
            assert(parts@.map_values(|p: TypePart| p@) =~= self@.parts.take(i + 1));
            i = i + 1;
        }
        assert(self@.parts.take(i as int) =~= self@.parts);
        Type { impl_trait: self.impl_trait, parts }
    }

    /// The tokens that this type is written with.
    pub fn words(&self) -> (words: Vec<String>)
        ensures
            texts(words@) == parts_words(self@.parts),
    {
        let mut words: Vec<String> = Vec::new();
        let mut i: usize = 0;
        assert(self@.parts.take(0) =~= Seq::empty());
        assert(texts(words@) =~= Seq::empty());
        while i < self.parts.len()
            invariant
                0 <= i <= self.parts.len(),
                texts(words@) == parts_words(self@.parts.take(i as int)),
            decreases self.parts.len() - i,
        {
            self.parts[i].push_words(&mut words);
            proof {
                let now = self@.parts.take(i + 1);
                assert(now.drop_last() =~= self@.parts.take(i as int));
                assert(now.last() == self.parts@[i as int]@);
            }
            i = i + 1;
        }
        assert(self@.parts.take(i as int) =~= self@.parts);
        words
    }

    /// This type as text: its tokens with one space between each two.
    pub fn text(&self) -> (text: String)
        ensures
            text@ == type_text(self@),
    {
        let words = self.words();
        join(&words, " ")
    }
}

} // verus!
