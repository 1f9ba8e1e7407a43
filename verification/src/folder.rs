//! The walk over a marked node that decides which functions are instrumented.

use crate::codegen::inputs_names;
use crate::codegen::traced_block;
use crate::codegen::Codegen;
use crate::config::config_of_attr_tokens;
use crate::config::config_of_tokens;
use crate::config::AttrTTS;
use crate::config::Config;
use crate::config::ConfigError;
use crate::config::ConfigErrorView;
use crate::pattern::UnsupportedPatternError;
use crate::syntax::attribute_views;
use crate::syntax::impl_item_views;
use crate::syntax::item_views;
use crate::syntax::Attribute;
use crate::syntax::AttributeView;
use crate::syntax::Block;
use crate::syntax::BlockView;
use crate::syntax::ImplItem;
use crate::syntax::ImplItemView;
use crate::syntax::Item;
use crate::syntax::ItemFn;
use crate::syntax::ItemFnView;
use crate::syntax::ItemImpl;
use crate::syntax::ItemImplView;
use crate::syntax::ItemMod;
use crate::syntax::ItemModView;
use crate::syntax::ItemView;
use crate::syntax::Path;
use crate::syntax::PathSegment;
use crate::syntax::PathView;
use crate::syntax::Type;
use crate::syntax::TypePart;
use crate::syntax::TypePartView;
use crate::syntax::TypeView;
use crate::tokens::literals_are_readable;
use crate::tokens::literals_readable;
use crate::tokens::stream_tokens;
use crate::tokens::tokens_of;
use crate::tokens::TokenView;
use proc_macro2::TokenStream;
use vstd::prelude::*;

verus! {

/// The kind of node that a marker is attached to, from the narrowest to the broadest.
///
/// A walk that meets a node with a marker of its own leaves that node alone where the walk
/// started at a broader scope: the node's own marker will see to it.
#[derive(Clone, Copy, Debug, PartialEq, Eq, PartialOrd, Ord, Structural)]
pub enum FoldScope {
    Fn,
    Impl,
    Mod,
}

impl FoldScope {
    /// The position of the scope in the order `Fn < Impl < Mod`.
    pub open spec fn breadth(self) -> nat {
        match self {
            FoldScope::Fn => 0,
            FoldScope::Impl => 1,
            FoldScope::Mod => 2,
        }
    }

    /// The scope of a marker on a node that reads as the three flags say.
    pub fn of_readings(module: bool, function: bool, block: bool) -> (result: Result<
        FoldScope,
        PlacementError,
    >)
        ensures
            result == scope_of_readings(module, function, block),
    {
        if module {
            Ok(FoldScope::Mod)
        } else if function {
            Ok(FoldScope::Fn)
        } else if block {
            Ok(FoldScope::Impl)
        } else {
            Err(PlacementError)
        }
    }

    /// Whether this scope is strictly broader than `other`.
    pub fn is_broader_than(self, other: FoldScope) -> (broader: bool)
        ensures
            broader == (self.breadth() > other.breadth()),
    {
        match (self, other) {
            (FoldScope::Impl, FoldScope::Fn) => true,
            (FoldScope::Mod, FoldScope::Fn) => true,
            (FoldScope::Mod, FoldScope::Impl) => true,
            _ => false,
        }
    }
}

/// A marker stands on something that is no function, implementation block or module.
#[derive(Clone, Copy, Debug, PartialEq, Eq, Structural)]
pub struct PlacementError;

/// Why a node could not be instrumented. Nothing is instrumented in that case.
#[derive(Clone, Debug, PartialEq, Eq)]
pub enum TraceError {
    Config(ConfigError),
    Placement(PlacementError),
    UnsupportedPattern(UnsupportedPatternError),
}

/// The mathematical value of a `TraceError`.
pub enum TraceErrorView {
    Config(ConfigErrorView),
    Placement(PlacementError),
    UnsupportedPattern(UnsupportedPatternError),
}

impl View for TraceError {
    type V = TraceErrorView;

    open spec fn view(&self) -> TraceErrorView {
        match *self {
            TraceError::Config(error) => TraceErrorView::Config(error@),
            TraceError::Placement(error) => TraceErrorView::Placement(error),
            TraceError::UnsupportedPattern(error) => TraceErrorView::UnsupportedPattern(error),
        }
    }
}

/// Trusted: whether `syn` reads the tokens as a module, `mod name { .. }` or `mod name;`.
pub uninterp spec fn parses_as_mod(tokens: Seq<TokenView>) -> bool;

/// Trusted: whether `syn` reads the tokens as a function with its body.
pub uninterp spec fn parses_as_fn(tokens: Seq<TokenView>) -> bool;

/// Trusted: whether `syn` reads the tokens as an implementation block.
pub uninterp spec fn parses_as_impl(tokens: Seq<TokenView>) -> bool;

/// The scope of a marker on a node that reads as a module, as a function or as an
/// implementation block as the three flags say. The readings are tried in that order and the
/// first that holds decides; where none holds the marker is misplaced.
pub open spec fn scope_of_readings(module: bool, function: bool, block: bool) -> Result<
    FoldScope,
    PlacementError,
> {
    if module {
        Ok(FoldScope::Mod)
    } else if function {
        Ok(FoldScope::Fn)
    } else if block {
        Ok(FoldScope::Impl)
    } else {
        Err(PlacementError)
    }
}

/// The scope of a marker on the node that `tokens` holds, where all literals in it are
/// readable.
pub open spec fn attachment_scope(tokens: Seq<TokenView>) -> Result<FoldScope, PlacementError> {
    scope_of_readings(parses_as_mod(tokens), parses_as_fn(tokens), parses_as_impl(tokens))
}

/// The scope of a marker on the node that `tokens` holds. Tokens with a literal in them that
/// is not readable hold no node that a marker can stand on.
pub open spec fn scope_of_tokens(tokens: Seq<TokenView>) -> Result<FoldScope, PlacementError> {
    if literals_readable(tokens) {
        attachment_scope(tokens)
    } else {
        Err(PlacementError)
    }
}

/// Trusted: calls `syn::parse2` for `syn::ItemMod` on a copy of `input` and says whether it
/// returned `Ok`. `syn` panics on a literal whose text it cannot read, so no such literal may
/// be in `input`.
#[verifier::external_body]
fn reads_as_mod(input: &TokenStream) -> (yes: bool)
    requires
        literals_readable(stream_tokens(*input)),
    ensures
        yes == parses_as_mod(stream_tokens(*input)),
{
    syn::parse2::<syn::ItemMod>(input.clone()).is_ok()
}

/// Trusted: calls `syn::parse2` for `syn::ItemFn` on a copy of `input` and says whether it
/// returned `Ok`. `syn` panics on a literal whose text it cannot read, so no such literal may
/// be in `input`.
#[verifier::external_body]
fn reads_as_fn(input: &TokenStream) -> (yes: bool)
    requires
        literals_readable(stream_tokens(*input)),
    ensures
        yes == parses_as_fn(stream_tokens(*input)),
{
    syn::parse2::<syn::ItemFn>(input.clone()).is_ok()
}

/// Trusted: calls `syn::parse2` for `syn::ItemImpl` on a copy of `input` and says whether it
/// returned `Ok`. `syn` panics on a literal whose text it cannot read, so no such literal may
/// be in `input`.
#[verifier::external_body]
fn reads_as_impl(input: &TokenStream) -> (yes: bool)
    requires
        literals_readable(stream_tokens(*input)),
    ensures
        yes == parses_as_impl(stream_tokens(*input)),
{
    syn::parse2::<syn::ItemImpl>(input.clone()).is_ok()
}

/// The name by which a marker is known.
pub open spec fn marker_name() -> Seq<char> {
    "trace2"@
}

/// Whether `attr` is a marker: the last segment of its path is the marker's name.
pub open spec fn is_marker(attr: AttributeView) -> bool {
    attr.path.len() > 0 && attr.path.last() == marker_name()
}

/// The configuration of the first marker among `attrs`; `None` where there is no marker.
pub open spec fn macro_config(attrs: Seq<AttributeView>) -> Result<Option<Config>, ConfigErrorView>
    decreases attrs.len(),
{
    if attrs.len() == 0 {
        Ok(None)
    } else if is_marker(attrs[0]) {
        match config_of_attr_tokens(attrs[0].tts) {
            Ok(config) => Ok(Some(config)),
            Err(error) => Err(error),
        }
    } else {
        macro_config(attrs.drop_first())
    }
}

/// A path reduced to its last segment.
pub open spec fn short_path(path: PathView) -> PathView {
    if path.segments.len() > 1 {
        PathView { leading_colon: path.leading_colon, segments: seq![path.segments.last()] }
    } else {
        path
    }
}

/// A piece of a type with its path, if it is one, reduced to its last segment.
pub open spec fn short_part(part: TypePartView) -> TypePartView {
    match part {
        TypePartView::Token(text) => TypePartView::Token(text),
        TypePartView::Path(path) => TypePartView::Path(short_path(path)),
    }
}

/// A type with each of its paths reduced to its last segment.
pub open spec fn short_type(ty: TypeView) -> TypeView {
    TypeView { impl_trait: ty.impl_trait, parts: ty.parts.map_values(|p: TypePartView| short_part(p)) }
}

/// The values of `results` in order, or the first error among them.
pub open spec fn collected<T, E>(results: Seq<Result<T, E>>) -> Result<Seq<T>, E>
    decreases results.len(),
{
    if results.len() == 0 {
        Ok(Seq::empty())
    } else {
        match collected(results.drop_last()) {
            Err(error) => Err(error),
            Ok(values) => match results.last() {
                Err(error) => Err(error),
                Ok(value) => Ok(values.push(value)),
            },
        }
    }
}

/// Whether a walk that started at `scope` leaves a node of the kind `kind` to that node's own
/// marker, where `found` is the configuration of that marker, if the node has one.
pub open spec fn is_deferred(scope: FoldScope, kind: FoldScope, found: Option<Config>) -> bool {
    found is Some && scope.breadth() > kind.breadth()
}

/// What a walk that started at `scope` makes of a function, which belongs to `impl_type` where
/// it is a method.
///
/// A function with a marker of its own is left as it is where `scope` is broader than a
/// function. Any other function gets an instrumented body.
pub open spec fn folded_fn(
    scope: FoldScope,
    impl_type: Option<TypeView>,
    function: ItemFnView,
) -> Result<ItemFnView, TraceErrorView> {
    match macro_config(function.attrs) {
        Err(error) => Err(TraceErrorView::Config(error)),
        Ok(found) => if is_deferred(scope, FoldScope::Fn, found) {
            Ok(function)
        } else {
            match traced_block(function.decl, function.ident, impl_type, function.block) {
                Err(error) => Err(TraceErrorView::UnsupportedPattern(error)),
                Ok(traced) => Ok(
                    ItemFnView {
                        attrs: function.attrs,
                        ident: function.ident,
                        decl: function.decl,
                        block: BlockView::Traced(Box::new(traced)),
                    },
                ),
            }
        },
    }
}

/// What a walk makes of one item of an implementation block for `impl_type`.
pub open spec fn folded_impl_item(
    scope: FoldScope,
    impl_type: Option<TypeView>,
    item: ImplItemView,
) -> Result<ImplItemView, TraceErrorView> {
    match item {
        ImplItemView::Method(method) => match folded_fn(scope, impl_type, method) {
            Ok(method) => Ok(ImplItemView::Method(method)),
            Err(error) => Err(error),
        },
        ImplItemView::Other => Ok(ImplItemView::Other),
    }
}

/// What a walk makes of the items of an implementation block for `impl_type`, in order.
pub open spec fn folded_impl_items(
    scope: FoldScope,
    impl_type: Option<TypeView>,
    items: Seq<ImplItemView>,
) -> Result<Seq<ImplItemView>, TraceErrorView> {
    collected(items.map_values(|item: ImplItemView| folded_impl_item(scope, impl_type, item)))
}

/// What a walk that started at `scope` makes of an implementation block.
///
/// A block with a marker of its own is left as it is where `scope` is broader than an
/// implementation block. In any other block the methods are walked, each as a method of the
/// block's type with its paths reduced to their last segments.
pub open spec fn folded_impl(scope: FoldScope, block: ItemImplView) -> Result<
    ItemImplView,
    TraceErrorView,
> {
    match macro_config(block.attrs) {
        Err(error) => Err(TraceErrorView::Config(error)),
        Ok(found) => if is_deferred(scope, FoldScope::Impl, found) {
            Ok(block)
        } else {
            match folded_impl_items(scope, Some(short_type(block.self_ty)), block.items) {
                Err(error) => Err(error),
                Ok(items) => Ok(
                    ItemImplView { attrs: block.attrs, self_ty: block.self_ty, items },
                ),
            }
        },
    }
}

/// What a walk that started at `scope` makes of an item: functions, implementation blocks and
/// the items of modules are walked, anything else stays.
pub open spec fn folded_item(scope: FoldScope, item: ItemView) -> Result<ItemView, TraceErrorView>
    decreases item,
{
    match item {
        ItemView::Fn(function) => match folded_fn(scope, None, function) {
            Ok(function) => Ok(ItemView::Fn(function)),
            Err(error) => Err(error),
        },
        ItemView::Impl(block) => match folded_impl(scope, block) {
            Ok(block) => Ok(ItemView::Impl(block)),
            Err(error) => Err(error),
        },
        ItemView::Mod(module) => match folded_items(scope, module.items) {
            Ok(items) => Ok(ItemView::Mod(ItemModView { items })),
            Err(error) => Err(error),
        },
        ItemView::Other => Ok(ItemView::Other),
    }
}

/// What a walk that started at `scope` makes of each of `items`.
pub open spec fn folded_each(scope: FoldScope, items: Seq<ItemView>) -> Seq<
    Result<ItemView, TraceErrorView>,
>
    decreases items, 0nat,
{
    Seq::new(
        items.len(),
        |i: int|
            if 0 <= i < items.len() {
                folded_item(scope, items[i])
            } else {
                Ok(ItemView::Other)
            },
    )
}

/// What a walk that started at `scope` makes of the items of a module, in order.
pub open spec fn folded_items(scope: FoldScope, items: Seq<ItemView>) -> Result<
    Seq<ItemView>,
    TraceErrorView,
>
    decreases items, 1nat,
{
    collected(folded_each(scope, items))
}

/// What a marker with the arguments `args` makes of the node `input` it is attached to.
///
/// Arguments that are no configuration are an error. An ignored node stays as it is, whatever
/// it is. Any other node is walked at the scope of its kind, and a node that is no module,
/// function or implementation block is an error.
pub open spec fn folded(args: Seq<TokenView>, input: ItemView) -> Result<ItemView, TraceErrorView> {
    match config_of_tokens(args) {
        Err(error) => Err(TraceErrorView::Config(error)),
        Ok(config) => if config.ignore {
            Ok(input)
        } else {
            match input {
                ItemView::Mod(_) => folded_item(FoldScope::Mod, input),
                ItemView::Fn(_) => folded_item(FoldScope::Fn, input),
                ItemView::Impl(_) => folded_item(FoldScope::Impl, input),
                ItemView::Other => Err(TraceErrorView::Placement(PlacementError)),
            }
        },
    }
}

/// The view of an outcome: the view of its value or of its error.
pub open spec fn result_view<T: View, E: View>(result: Result<T, E>) -> Result<T::V, E::V> {
    match result {
        Ok(value) => Ok(value@),
        Err(error) => Err(error@),
    }
}

/// One more result is collected behind those before it.
proof fn lemma_collected_step<T, E>(results: Seq<Result<T, E>>, i: int)
    requires
        0 <= i < results.len(),
    ensures
        collected(results.take(i + 1)) == match collected(results.take(i)) {
            Err(error) => Err(error),
            Ok(values) => match results[i] {
                Err(error) => Err(error),
                Ok(value) => Ok(values.push(value)),
            },
        },
{
    assert(results.take(i + 1).drop_last() =~= results.take(i));
    assert(results.take(i + 1).last() == results[i]);
}

/// An error among the first `k` results is the outcome of collecting all of them.
proof fn lemma_collected_error<T, E>(results: Seq<Result<T, E>>, k: int)
    requires
        0 <= k <= results.len(),
        collected(results.take(k)) is Err,
    ensures
        collected(results) == collected(results.take(k)),
    decreases results.len() - k,
{
    if k == results.len() {
        assert(results.take(k) =~= results);
    } else {
        lemma_collected_step(results, k);
        lemma_collected_error(results, k + 1);
    }
}

/// Reduces the paths of a type to their last segments, so that the type reads shorter in a
/// trace.
pub struct TypeFolder;

impl TypeFolder {
    /// The path `i` reduced to its last segment.
    pub fn fold_path(i: Path) -> (path: Path)
        ensures
            path@ == short_path(i@),
    {
        let Path { leading_colon, segments } = i;
        let mut segments = segments;
        if segments.len() > 1 {
            let ghost all = segments@;
            match segments.pop() {
                Some(last) => {
                    let mut kept: Vec<PathSegment> = Vec::new();
                    kept.push(last);
                    assert(kept@.map_values(|s: PathSegment| s@) =~= seq![
                        all.map_values(|s: PathSegment| s@).last(),
                    ]);
                    Path { leading_colon, segments: kept }
                },
                None => Path { leading_colon, segments },
            }
        } else {
            Path { leading_colon, segments }
        }
    }

    /// The type `i` with each of its paths reduced to its last segment.
    pub fn fold_type(i: Type) -> (ty: Type)
        ensures
            ty@ == short_type(i@),
    {
        let Type { impl_trait, parts } = i;
        let ghost all = parts@;
        let mut short: Vec<TypePart> = Vec::new();
        for part in iter: parts
            invariant
                iter.seq() == all,
                short@.len() == iter.index(),
                forall|k: int| 0 <= k < short@.len() ==> short@[k]@ == short_part(all[k]@),
        {
            let folded = match part {
                TypePart::Token(text) => TypePart::Token(text),
                TypePart::Path(path) => TypePart::Path(TypeFolder::fold_path(path)),
            };
            short.push(folded);
        }
        assert(short@.map_values(|p: TypePart| p@) =~= all.map_values(|p: TypePart| p@).map_values(
            |p: TypePartView| short_part(p),
        ));
        Type { impl_trait, parts: short }
    }
}

/// The walker over a marked node.
#[derive(Debug)]
pub struct Folder {
    /// The scope at which the walk started.
    scope: FoldScope,
    /// The type of the implementation block that the walk is in, if it is in one.
    current_impl: Option<Type>,
}

/// The mathematical value of a `Folder`.
pub struct FolderView {
    pub scope: FoldScope,
    pub current_impl: Option<TypeView>,
}

impl View for Folder {
    type V = FolderView;

    closed spec fn view(&self) -> FolderView {
        FolderView {
            scope: self.scope,
            current_impl: match self.current_impl {
                Some(ty) => Some(ty@),
                None => None,
            },
        }
    }
}

impl Folder {
    /// A walker that starts at `scope`, outside any implementation block.
    pub fn new(scope: FoldScope) -> (folder: Folder)
        ensures
            folder@ == (FolderView { scope, current_impl: None }),
    {
        Folder { scope, current_impl: None }
    }

    /// The scope of a marker on the node that the tokens `input` hold: they are read as a
    /// module, else as a function, else as an implementation block. Tokens with a literal in
    /// them that cannot be read are none of these.
    pub fn scope_of(input: &TokenStream) -> (result: Result<FoldScope, PlacementError>)
        ensures
            result == scope_of_tokens(stream_tokens(*input)),
    {
        let tokens = tokens_of(input);
        if !literals_are_readable(&tokens) {
            return Err(PlacementError);
        }
        let module = reads_as_mod(input);
        let function = !module && reads_as_fn(input);
        let block = !module && !function && reads_as_impl(input);
        FoldScope::of_readings(module, function, block)
    }

    /// Instruments the node `input` under a marker with the arguments `args`.
    pub fn fold(args: &TokenStream, input: Item) -> (result: Result<Item, TraceError>)
        ensures
            result_view(result) == folded(stream_tokens(*args), input@),
    {
        let config = match Config::parse(args) {
            Ok(config) => config,
            Err(error) => {
                return Err(TraceError::Config(error));
            },
        };
        if config.ignore {
            return Ok(input);
        }
        match input {
            Item::Mod(module) => Folder::new(FoldScope::Mod).fold_item(Item::Mod(module)),
            Item::Fn(function) => Folder::new(FoldScope::Fn).fold_item(Item::Fn(function)),
            Item::Impl(block) => Folder::new(FoldScope::Impl).fold_item(Item::Impl(block)),
            Item::Other => Err(TraceError::Placement(PlacementError)),
        }
    }

    /// The configuration of the first marker among `attributes`; `None` where there is none.
    pub fn extract_macro_config(attributes: &Vec<Attribute>) -> (result: Result<
        Option<Config>,
        ConfigError,
    >)
        ensures
            match result {
                Ok(found) => macro_config(attribute_views(attributes@)) == Ok::<_, ConfigErrorView>(
                    found,
                ),
                Err(error) => macro_config(attribute_views(attributes@)) == Err::<Option<Config>, _>(
                    error@,
                ),
            },
    {
        let ghost views = attribute_views(attributes@);
        let name = String::from_str("trace2");
        let mut i: usize = 0;
        assert(views.subrange(0, views.len() as int) =~= views);
        while i < attributes.len()
            invariant
                views == attribute_views(attributes@),
                name@ == marker_name(),
                0 <= i <= attributes.len(),
                macro_config(views) == macro_config(views.subrange(i as int, views.len() as int)),
            decreases attributes.len() - i,
        {
            let attr = &attributes[i];
            proof {
                let rest = views.subrange(i as int, views.len() as int);
                assert(rest[0] == attr@);
                assert(rest.drop_first() =~= views.subrange(i + 1, views.len() as int));
                assert(attr@.path.len() == attr.path@.len());
                if attr.path@.len() > 0 {
                    assert(attr@.path.last() == attr.path@[attr.path@.len() - 1]@);
                }
            }
            if attr.path.len() > 0 && attr.path[attr.path.len() - 1] == name {
                return match AttrTTS::parse(&attr.tts) {
                    Ok(config) => Ok(Some(config.0)),
                    Err(error) => Err(error),
                };
            }
            i = i + 1;
        }
        assert(views.subrange(i as int, views.len() as int).len() == 0);
        Ok(None)
    }

    /// Walks a method of the implementation block that the walk is in.
    pub fn fold_impl_item_method(&mut self, i: ItemFn) -> (result: Result<ItemFn, TraceError>)
        ensures
            result_view(result) == folded_fn(old(self)@.scope, old(self)@.current_impl, i@),
            final(self)@ == old(self)@,
    {
        let some_config = match Folder::extract_macro_config(&i.attrs) {
            Ok(found) => found,
            Err(error) => {
                return Err(TraceError::Config(error));
            },
        };
        if some_config.is_some() && self.scope.is_broader_than(FoldScope::Fn) {
            return Ok(i);
        }
        let ItemFn { attrs, ident, decl, block } = i;
        match Codegen::build_block(&decl, ident.as_str(), self.current_impl.as_ref(), block) {
            Ok(traced) => Ok(ItemFn { attrs, ident, decl, block: Block::Traced(Box::new(traced)) }),
            Err(error) => Err(TraceError::UnsupportedPattern(error)),
        }
    }

    /// Walks a function that stands outside any implementation block.
    pub fn fold_item_fn(&mut self, i: ItemFn) -> (result: Result<ItemFn, TraceError>)
        ensures
            result_view(result) == folded_fn(old(self)@.scope, None, i@),
            final(self)@ == old(self)@,
    {
        let some_config = match Folder::extract_macro_config(&i.attrs) {
            Ok(found) => found,
            Err(error) => {
                return Err(TraceError::Config(error));
            },
        };
        if some_config.is_some() && self.scope.is_broader_than(FoldScope::Fn) {
            return Ok(i);
        }
        let ItemFn { attrs, ident, decl, block } = i;
        match Codegen::build_block(&decl, ident.as_str(), None, block) {
            Ok(traced) => Ok(ItemFn { attrs, ident, decl, block: Block::Traced(Box::new(traced)) }),
            Err(error) => Err(TraceError::UnsupportedPattern(error)),
        }
    }

    /// Walks an implementation block: its type is made the current one, its methods are
    /// walked, and the current type is cleared again. A block that is left to its own marker
    /// is not entered.
    #[verifier::loop_isolation(false)]
    pub fn fold_item_impl(&mut self, i: ItemImpl) -> (result: Result<ItemImpl, TraceError>)
        ensures
            result_view(result) == folded_impl(old(self)@.scope, i@),
            final(self)@.scope == old(self)@.scope,
            final(self)@.current_impl == if macro_config(i@.attrs) is Ok && !is_deferred(
                old(self)@.scope,
                FoldScope::Impl,
                macro_config(i@.attrs)->Ok_0,
            ) {
                None
            } else {
                old(self)@.current_impl
            },
    {
        let some_config = match Folder::extract_macro_config(&i.attrs) {
            Ok(found) => found,
            Err(error) => {
                return Err(TraceError::Config(error));
            },
        };
        if some_config.is_some() && self.scope.is_broader_than(FoldScope::Impl) {
            return Ok(i);
        }
        let ItemImpl { attrs, self_ty, items } = i;
        self.current_impl = Some(TypeFolder::fold_type(self_ty.duplicate()));
        let ghost all = items@;
        let ghost owner = Some(short_type(self_ty@));
        let ghost scope = self.scope;
        let ghost results = impl_item_views(all).map_values(
            |item: ImplItemView| folded_impl_item(scope, owner, item),
        );
        let mut methods: Vec<ImplItem> = Vec::new();
        assert(results.take(0) =~= Seq::empty());
        assert(impl_item_views(methods@) =~= Seq::empty());
        for item in iter: items
            invariant
                iter.seq() == all,
                results == impl_item_views(all).map_values(
                    |item: ImplItemView| folded_impl_item(scope, owner, item),
                ),
                self@ == (FolderView { scope, current_impl: owner }),
                methods@.len() == iter.index(),
                collected(results.take(iter.index())) == Ok::<_, TraceErrorView>(
                    impl_item_views(methods@),
                ),
        {
            let ghost index = iter.index();
            let ghost before = impl_item_views(methods@);
            proof {
                lemma_collected_step(results, index);
                assert(results[index] == folded_impl_item(scope, owner, item@));
            }
            let folded = match item {
                ImplItem::Method(method) => match self.fold_impl_item_method(method) {
                    Ok(method) => ImplItem::Method(method),
                    Err(error) => {
                        proof {
                            lemma_collected_error(results, index + 1);
                        }
                        self.current_impl = None;
                        return Err(error);
                    },
                },
                ImplItem::Other => ImplItem::Other,
            };
            methods.push(folded);
            assert(impl_item_views(methods@) =~= before.push(folded@));
        }
        assert(results.take(all.len() as int) =~= results);
        self.current_impl = None;
        Ok(ItemImpl { attrs, self_ty, items: methods })
    }

    /// Walks the items of a module, one after the other. The current type is cleared where an
    /// implementation block was entered on the way, and is otherwise what it was.
    #[verifier::loop_isolation(false)]
    pub fn fold_item_mod(&mut self, i: ItemMod) -> (result: Result<ItemMod, TraceError>)
        ensures
            result_view(result) == match folded_items(old(self)@.scope, i@.items) {
                Ok(items) => Ok::<_, TraceErrorView>(ItemModView { items }),
                Err(error) => Err(error),
            },
            final(self)@.scope == old(self)@.scope,
            final(self)@.current_impl is None || final(self)@.current_impl == old(self)@.current_impl,
        decreases i, 0nat,
    {
        let ItemMod { items } = i;
        let ghost all = items@;
        let ghost scope = self.scope;
        let ghost results = folded_each(scope, item_views(all));
        let mut walked: Vec<Item> = Vec::new();
        assert(results.take(0) =~= Seq::empty());
        assert(item_views(walked@) =~= Seq::empty());
        for item in iter: items
            invariant
                iter.seq() == all,
                all == i.items@,
                results == folded_each(scope, item_views(all)),
                self@.scope == scope,
                self@.current_impl is None || self@.current_impl == old(self)@.current_impl,
                walked@.len() == iter.index(),
                collected(results.take(iter.index())) == Ok::<_, TraceErrorView>(
                    item_views(walked@),
                ),
        {
            let ghost index = iter.index();
            let ghost before = item_views(walked@);
            proof {
                lemma_collected_step(results, index);
                assert(results[index] == folded_item(scope, item@));
            }
            match self.fold_item(item) {
                Ok(item) => {
                    walked.push(item);
                    assert(item_views(walked@) =~= before.push(item@));
                },
                Err(error) => {
                    proof {
                        lemma_collected_error(results, index + 1);
                    }
                    return Err(error);
                },
            }
        }
        assert(results.take(all.len() as int) =~= results);
        Ok(ItemMod { items: walked })
    }

    /// Walks one item: a function, an implementation block, or a module with all that is in
    /// it. Anything else stays as it is. The current type is cleared where an implementation
    /// block was entered on the way, and is otherwise what it was.
    pub fn fold_item(&mut self, i: Item) -> (result: Result<Item, TraceError>)
        ensures
            result_view(result) == folded_item(old(self)@.scope, i@),
            final(self)@.scope == old(self)@.scope,
            final(self)@.current_impl is None || final(self)@.current_impl == old(self)@.current_impl,
        decreases i, 1nat,
    {
        match i {
            Item::Fn(function) => match self.fold_item_fn(function) {
                Ok(function) => Ok(Item::Fn(function)),
                Err(error) => Err(error),
            },
            Item::Impl(block) => match self.fold_item_impl(block) {
                Ok(block) => Ok(Item::Impl(block)),
                Err(error) => Err(error),
            },
            Item::Mod(module) => match self.fold_item_mod(module) {
                Ok(module) => Ok(Item::Mod(module)),
                Err(error) => Err(error),
            },
            Item::Other => Ok(Item::Other),
        }
    }
}

/// Where collecting succeeds, each result is the value collected at its position.
proof fn lemma_collected_values<T, E>(results: Seq<Result<T, E>>)
    requires
        collected(results) is Ok,
    ensures
        collected(results)->Ok_0.len() == results.len(),
        forall|k: int|
            0 <= k < results.len() ==> results[k] == Ok::<T, E>(collected(results)->Ok_0[k]),
    decreases results.len(),
{
    if results.len() > 0 {
        let front = results.drop_last();
        lemma_collected_values(front);
        let values = collected(results)->Ok_0;
        assert forall|k: int| 0 <= k < results.len() implies results[k] == Ok::<T, E>(
            values[k],
        ) by {
            if k < front.len() {
                assert(results[k] == front[k]);
                assert(values[k] == collected(front)->Ok_0[k]);
            }
        }
    }
}

/// Ignore idempotence: under a marker that says `ignore`, a node comes back exactly as it was,
/// whatever it is, and so does what came back when the marker is applied to it again.
pub proof fn lemma_ignored_node_is_unchanged(args: Seq<TokenView>, input: ItemView)
    requires
        config_of_tokens(args) == Ok::<_, ConfigErrorView>(Config { ignore: true }),
    ensures
        folded(args, input) == Ok::<_, TraceErrorView>(input),
        folded(args, folded(args, input)->Ok_0) == Ok::<_, TraceErrorView>(input),
{
}

/// Deferral: where a module holds, at position `k`, an implementation block that holds, at
/// position `j`, a method with a marker of its own, a walk of the module that succeeds leaves
/// that method exactly as it was.
pub proof fn lemma_marked_method_is_deferred(module: ItemModView, k: int, j: int)
    requires
        0 <= k < module.items.len(),
        module.items[k] is Impl,
        0 <= j < module.items[k]->Impl_0.items.len(),
        module.items[k]->Impl_0.items[j] is Method,
        macro_config(module.items[k]->Impl_0.items[j]->Method_0.attrs) matches Ok(Some(_)),
        folded_item(FoldScope::Mod, ItemView::Mod(module)) is Ok,
    ensures
        ({
            &&& folded_item(FoldScope::Mod, ItemView::Mod(module)) matches Ok(ItemView::Mod(walked))
            &&& walked.items.len() == module.items.len()
            &&& walked.items[k] matches ItemView::Impl(block)
            &&& block.items.len() == module.items[k]->Impl_0.items.len()
            &&& block.items[j] == module.items[k]->Impl_0.items[j]
        }),
{
    let scope = FoldScope::Mod;
    let results = folded_each(scope, module.items);
    lemma_collected_values(results);
    let block = module.items[k]->Impl_0;
    assert(results[k] == folded_item(scope, module.items[k]));
    assert(folded_impl(scope, block) is Ok);
    match macro_config(block.attrs) {
        Ok(found) => {
            if !is_deferred(scope, FoldScope::Impl, found) {
                let owner = Some(short_type(block.self_ty));
                let methods = block.items.map_values(
                    |item: ImplItemView| folded_impl_item(scope, owner, item),
                );
                lemma_collected_values(methods);
                assert(methods[j] == folded_impl_item(scope, owner, block.items[j]));
            }
        },
        Err(_) => {},
    }
}

/// A walk that starts at a function instruments that function, with or without a marker of its
/// own, exactly when its attributes hold no ill-formed marker and its parameter patterns can
/// be reduced to names. The body it had is the one that the instrumented body runs.
pub proof fn lemma_function_scope_instruments(function: ItemFnView)
    ensures
        folded_item(FoldScope::Fn, ItemView::Fn(function)) is Ok <==> macro_config(function.attrs)
            is Ok && inputs_names(function.decl.inputs) is Ok,
        folded_item(FoldScope::Fn, ItemView::Fn(function)) matches Ok(ItemView::Fn(walked)) ==> ({
            &&& walked.block matches BlockView::Traced(traced)
            &&& traced.block == function.block
            &&& walked.attrs == function.attrs
            &&& walked.ident == function.ident
            &&& walked.decl == function.decl
        }),
{
}

} // verus!
