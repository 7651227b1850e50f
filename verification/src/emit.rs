//! Emission of compiled templates as Rust source text, through the code
//! generation collaborator. The collaborator's builder values are opaque
//! here; each carries an uninterpreted model of what was put into it, the
//! trusted wrappers state how every call moves that model, and the rendered
//! text is named as a function of the built content.

use vstd::prelude::*;

use crate::compile::{minify_html, ConversionError, derive_type_name, GeneratedType,
    render_body_of, type_name_of};
use crate::header::{extract_header, header_well_formed, first_empty_type, scan_candidates,
    HeaderData, HeaderExtractionError};
use crate::substitute::{strip_header, substitute};
use crate::tree::{assemble, assemble_v, distinct_children, entries_view, item_children_distinct, item_view,
    items_view, lemma_assemble_distinct, lemma_items_view, node_view, type_view, DirEntry, ItemV,
    NodeV, ScopeItem, ScopeNode, TypeV};

verus! {

#[verifier::external_type_specification]
#[verifier::external_body]
pub struct ExScope(codegen::Scope);

#[verifier::external_type_specification]
#[verifier::external_body]
pub struct ExModule(codegen::Module);

#[verifier::external_type_specification]
#[verifier::external_body]
pub struct ExStruct(codegen::Struct);

#[verifier::external_type_specification]
#[verifier::external_body]
pub struct ExImpl(codegen::Impl);

#[verifier::external_type_specification]
#[verifier::external_body]
pub struct ExFunction(codegen::Function);

#[verifier::external_type_specification]
#[verifier::external_body]
pub struct ExType(codegen::Type);

// ---------------------------------------------------------------------------
// Models of the collaborator's builder values
// ---------------------------------------------------------------------------
/// The content of a built function: its name, visibility, receiver, ordered
/// arguments, return type and body lines.
pub struct FnModel {
    pub name: Seq<char>,
    pub vis: Seq<char>,
    pub takes_self: bool,
    pub args: Seq<(Seq<char>, Seq<char>)>,
    pub ret: Option<Seq<char>>,
    pub lines: Seq<Seq<char>>,
}

/// The content of a built struct definition: its type name, visibility and
/// ordered named fields.
pub struct StructModel {
    pub name: Seq<char>,
    pub vis: Seq<char>,
    pub fields: Seq<(Seq<char>, Seq<char>)>,
}

/// The content of a built impl block: its target type and ordered functions.
pub struct ImplModel {
    pub target: Seq<char>,
    pub fns: Seq<FnModel>,
}

/// The content of a built module: its name, visibility and ordered items.
pub struct ModuleModel {
    pub name: Seq<char>,
    pub vis: Seq<char>,
    pub items: Seq<EmitItem>,
}

/// One item put into a scope or module.
pub enum EmitItem {
    Struct(StructModel),
    Impl(ImplModel),
    Module(ModuleModel),
}

/// The text of a codegen::Type, as the collaborator renders it.
pub uninterp spec fn type_text(t: codegen::Type) -> Seq<char>;

/// What a codegen::Function holds.
pub uninterp spec fn fn_model(f: codegen::Function) -> FnModel;

/// What a codegen::Struct holds.
pub uninterp spec fn struct_model(s: codegen::Struct) -> StructModel;

/// What a codegen::Impl holds.
pub uninterp spec fn impl_model(i: codegen::Impl) -> ImplModel;

/// What a codegen::Module holds.
pub uninterp spec fn module_model(m: codegen::Module) -> ModuleModel;

/// What a codegen::Scope holds: its items, in the order pushed.
pub uninterp spec fn scope_items_model(s: codegen::Scope) -> Seq<EmitItem>;

/// The text codegen::Scope::to_string renders for a scope holding the given
/// items: a deterministic pretty-printing, a function of the items alone.
pub uninterp spec fn rendered_scope(items: Seq<EmitItem>) -> Seq<char>;

// Model updates, one per builder call.
pub open spec fn fn_model_new(name: Seq<char>) -> FnModel {
    FnModel {
        name,
        vis: Seq::empty(),
        takes_self: false,
        args: Seq::empty(),
        ret: None,
        lines: Seq::empty(),
    }
}

pub open spec fn fn_with_vis(m: FnModel, vis: Seq<char>) -> FnModel {
    FnModel { name: m.name, vis, takes_self: m.takes_self, args: m.args, ret: m.ret, lines: m.lines }
}

pub open spec fn fn_with_self(m: FnModel) -> FnModel {
    FnModel { name: m.name, vis: m.vis, takes_self: true, args: m.args, ret: m.ret, lines: m.lines }
}

pub open spec fn fn_with_arg(m: FnModel, name: Seq<char>, ty: Seq<char>) -> FnModel {
    FnModel {
        name: m.name,
        vis: m.vis,
        takes_self: m.takes_self,
        args: m.args.push((name, ty)),
        ret: m.ret,
        lines: m.lines,
    }
}

pub open spec fn fn_with_ret(m: FnModel, ty: Seq<char>) -> FnModel {
    FnModel {
        name: m.name,
        vis: m.vis,
        takes_self: m.takes_self,
        args: m.args,
        ret: Some(ty),
        lines: m.lines,
    }
}

pub open spec fn fn_with_line(m: FnModel, line: Seq<char>) -> FnModel {
    FnModel {
        name: m.name,
        vis: m.vis,
        takes_self: m.takes_self,
        args: m.args,
        ret: m.ret,
        lines: m.lines.push(line),
    }
}

pub open spec fn struct_model_new(name: Seq<char>) -> StructModel {
    StructModel { name, vis: Seq::empty(), fields: Seq::empty() }
}

pub open spec fn struct_with_vis(m: StructModel, vis: Seq<char>) -> StructModel {
    StructModel { name: m.name, vis, fields: m.fields }
}

pub open spec fn struct_with_field(m: StructModel, name: Seq<char>, ty: Seq<char>) -> StructModel {
    StructModel { name: m.name, vis: m.vis, fields: m.fields.push((name, ty)) }
}

pub open spec fn impl_model_new(target: Seq<char>) -> ImplModel {
    ImplModel { target, fns: Seq::empty() }
}

pub open spec fn impl_with_fn(m: ImplModel, f: FnModel) -> ImplModel {
    ImplModel { target: m.target, fns: m.fns.push(f) }
}

pub open spec fn module_model_new(name: Seq<char>) -> ModuleModel {
    ModuleModel { name, vis: Seq::empty(), items: Seq::empty() }
}

pub open spec fn module_with_vis(m: ModuleModel, vis: Seq<char>) -> ModuleModel {
    ModuleModel { name: m.name, vis, items: m.items }
}

pub open spec fn module_with_item(m: ModuleModel, item: EmitItem) -> ModuleModel {
    ModuleModel { name: m.name, vis: m.vis, items: m.items.push(item) }
}

/// A module named `name` is among the items.
pub open spec fn has_module_named(items: Seq<EmitItem>, name: Seq<char>) -> bool
    decreases items,
{
    if items.len() == 0 {
        false
    } else if items.last() matches EmitItem::Module(m) && m.name == name {
        true
    } else {
        has_module_named(items.drop_last(), name)
    }
}

// ---------------------------------------------------------------------------
// Trusted wrappers around the collaborator
// ---------------------------------------------------------------------------
/// Relies on codegen::Scope::new: a fresh, empty scope.
#[verifier::external_body]
pub(crate) fn scope_new() -> (r: codegen::Scope)
    ensures
        scope_items_model(r) == Seq::<EmitItem>::empty(),
{
    codegen::Scope::new()
}

/// Relies on codegen::Scope::push_struct: appends the struct to the scope's
/// items.
#[verifier::external_body]
pub(crate) fn scope_push_struct(scope: &mut codegen::Scope, item: codegen::Struct)
    ensures
        scope_items_model(*final(scope)) == scope_items_model(*old(scope)).push(
            EmitItem::Struct(struct_model(item)),
        ),
{
    scope.push_struct(item);
}

/// Relies on codegen::Scope::push_impl: appends the impl block to the
/// scope's items.
#[verifier::external_body]
pub(crate) fn scope_push_impl(scope: &mut codegen::Scope, item: codegen::Impl)
    ensures
        scope_items_model(*final(scope)) == scope_items_model(*old(scope)).push(
            EmitItem::Impl(impl_model(item)),
        ),
{
    scope.push_impl(item);
}

/// Relies on codegen::Scope::push_module: appends the module to the scope's
/// items. The call asserts that no module of the same name is already
/// there, so the scope must hold none.
#[verifier::external_body]
pub(crate) fn scope_push_module(scope: &mut codegen::Scope, item: codegen::Module)
    requires
        !has_module_named(scope_items_model(*old(scope)), module_model(item).name),
    ensures
        scope_items_model(*final(scope)) == scope_items_model(*old(scope)).push(
            EmitItem::Module(module_model(item)),
        ),
{
    scope.push_module(item);
}

/// Relies on codegen::Scope::to_string: a deterministic pretty-printing of
/// the scope's content in order. A scope built through this module's
/// wrappers holds exactly its pushed items, so the text is a function of
/// those items.
#[verifier::external_body]
pub(crate) fn scope_to_string(scope: &codegen::Scope) -> (r: String)
    ensures
        r@ == rendered_scope(scope_items_model(*scope)),
{
    scope.to_string()
}

/// Relies on codegen::Module::new: a fresh module with the given name and an
/// empty scope.
#[verifier::external_body]
pub(crate) fn module_new(name: &str) -> (r: codegen::Module)
    ensures
        module_model(r) == module_model_new(name@),
{
    codegen::Module::new(name)
}

/// Relies on codegen::Module::vis: sets the module's visibility and nothing
/// else.
#[verifier::external_body]
pub(crate) fn module_vis(module: &mut codegen::Module, vis: &str)
    ensures
        module_model(*final(module)) == module_with_vis(module_model(*old(module)), vis@),
{
    module.vis(vis);
}

/// Relies on codegen::Module::push_struct: appends the struct to the
/// module's scope.
#[verifier::external_body]
pub(crate) fn module_push_struct(module: &mut codegen::Module, item: codegen::Struct)
    ensures
        module_model(*final(module)) == module_with_item(
            module_model(*old(module)),
            EmitItem::Struct(struct_model(item)),
        ),
{
    module.push_struct(item);
}

/// Relies on codegen::Module::push_impl: appends the impl block to the
/// module's scope.
#[verifier::external_body]
pub(crate) fn module_push_impl(module: &mut codegen::Module, item: codegen::Impl)
    ensures
        module_model(*final(module)) == module_with_item(
            module_model(*old(module)),
            EmitItem::Impl(impl_model(item)),
        ),
{
    module.push_impl(item);
}

/// Relies on codegen::Module::push_module: appends the inner module to the
/// outer module's scope. The call asserts that the outer module holds no
/// module of the same name yet.
#[verifier::external_body]
pub(crate) fn module_push_module(module: &mut codegen::Module, item: codegen::Module)
    requires
        !has_module_named(module_model(*old(module)).items, module_model(item).name),
    ensures
        module_model(*final(module)) == module_with_item(
            module_model(*old(module)),
            EmitItem::Module(module_model(item)),
        ),
{
    module.push_module(item);
}

/// Relies on codegen::Struct::new: a fresh struct definition with the given
/// name and no fields.
#[verifier::external_body]
pub(crate) fn struct_new(name: &str) -> (r: codegen::Struct)
    ensures
        struct_model(r) == struct_model_new(name@),
{
    codegen::Struct::new(name)
}

/// Relies on codegen::Struct::vis: sets the struct's visibility and nothing
/// else.
#[verifier::external_body]
pub(crate) fn struct_vis(item: &mut codegen::Struct, vis: &str)
    ensures
        struct_model(*final(item)) == struct_with_vis(struct_model(*old(item)), vis@),
{
    item.vis(vis);
}

/// Relies on codegen::Struct::field: appends a named field of the given type
/// to the struct. The call refuses a struct with tuple fields; this crate
/// builds structs only through `struct_new` and this wrapper, which keep the
/// field list named.
#[verifier::external_body]
pub(crate) fn struct_field(item: &mut codegen::Struct, name: &str, ty: &str)
    ensures
        struct_model(*final(item)) == struct_with_field(struct_model(*old(item)), name@, ty@),
{
    item.field(name, ty);
}

/// Relies on codegen::Struct::ty: the type the struct defines, cloned; its
/// text is the struct's name.
#[verifier::external_body]
pub(crate) fn struct_ty(item: &codegen::Struct) -> (r: codegen::Type)
    ensures
        type_text(r) == struct_model(*item).name,
{
    item.ty().clone()
}

/// Relies on codegen::Impl::new: a fresh impl block for the target type.
#[verifier::external_body]
pub(crate) fn impl_new(target: codegen::Type) -> (r: codegen::Impl)
    ensures
        impl_model(r) == impl_model_new(type_text(target)),
{
    codegen::Impl::new(target)
}

/// Relies on codegen::Impl::push_fn: appends the function to the impl block.
#[verifier::external_body]
pub(crate) fn impl_push_fn(item: &mut codegen::Impl, f: codegen::Function)
    ensures
        impl_model(*final(item)) == impl_with_fn(impl_model(*old(item)), fn_model(f)),
{
    item.push_fn(f);
}

/// Relies on codegen::Function::new: a fresh function definition with the
/// given name and an empty body.
#[verifier::external_body]
pub(crate) fn function_new(name: &str) -> (r: codegen::Function)
    ensures
        fn_model(r) == fn_model_new(name@),
{
    codegen::Function::new(name)
}

/// Relies on codegen::Function::vis: sets the function's visibility and
/// nothing else.
#[verifier::external_body]
pub(crate) fn function_vis(f: &mut codegen::Function, vis: &str)
    ensures
        fn_model(*final(f)) == fn_with_vis(fn_model(*old(f)), vis@),
{
    f.vis(vis);
}

/// Relies on codegen::Function::arg_self: adds `self`, by value, as the
/// function's receiver.
#[verifier::external_body]
pub(crate) fn function_arg_self(f: &mut codegen::Function)
    ensures
        fn_model(*final(f)) == fn_with_self(fn_model(*old(f))),
{
    f.arg_self();
}

/// Relies on codegen::Function::arg: appends an argument with the given name
/// and type.
#[verifier::external_body]
pub(crate) fn function_arg(f: &mut codegen::Function, name: &str, ty: &str)
    ensures
        fn_model(*final(f)) == fn_with_arg(fn_model(*old(f)), name@, ty@),
{
    f.arg(name, ty);
}

/// Relies on codegen::Function::ret: sets the function's return type.
#[verifier::external_body]
pub(crate) fn function_ret(f: &mut codegen::Function, ty: &str)
    ensures
        fn_model(*final(f)) == fn_with_ret(fn_model(*old(f)), ty@),
{
    f.ret(ty);
}

/// Relies on codegen::Function::line: appends one line to the function's
/// body.
#[verifier::external_body]
pub(crate) fn function_line(f: &mut codegen::Function, line: &str)
    ensures
        fn_model(*final(f)) == fn_with_line(fn_model(*old(f)), line@),
{
    f.line(line);
}

// ---------------------------------------------------------------------------
// What the library emits, modelled
// ---------------------------------------------------------------------------
/// The line binding one field in the render method.
pub open spec fn render_line(field: Seq<char>) -> Seq<char> {
    "let "@ + field + " = self."@ + field + ";"@
}

/// The final formatting line of the render method.
pub open spec fn format_line(body: Seq<char>) -> Seq<char> {
    "format!(\""@ + body + "\")"@
}

/// The field names joined with commas, for the constructor's body.
pub open spec fn joined_names(fields: Seq<(Seq<char>, Seq<char>)>) -> Seq<char>
    decreases fields.len(),
{
    if fields.len() == 0 {
        Seq::empty()
    } else if fields.len() == 1 {
        fields[0].0
    } else {
        joined_names(fields.drop_last()) + ", "@ + fields.last().0
    }
}

/// The constructor's one body line.
pub open spec fn ctor_line(fields: Seq<(Seq<char>, Seq<char>)>) -> Seq<char> {
    "Self { "@ + joined_names(fields) + " }"@
}

/// The render method of a compiled type: public, takes `self` by value,
/// returns String, binds one local per field in order, then formats the
/// render body.
pub open spec fn render_fn_model(fields: Seq<(Seq<char>, Seq<char>)>, body: Seq<char>) -> FnModel {
    FnModel {
        name: "render"@,
        vis: "pub"@,
        takes_self: true,
        args: Seq::empty(),
        ret: Some("String"@),
        lines: Seq::new(fields.len(), |k: int| render_line(fields[k].0)).push(format_line(body)),
    }
}

/// The constructor of a compiled type: public, one parameter per field with
/// its declared type, in order, returning Self with each field set from the
/// like-named parameter.
pub open spec fn new_fn_model(fields: Seq<(Seq<char>, Seq<char>)>) -> FnModel {
    FnModel {
        name: "new"@,
        vis: "pub"@,
        takes_self: false,
        args: fields,
        ret: Some("Self"@),
        lines: seq![ctor_line(fields)],
    }
}

/// The two items one compiled type emits: its public struct definition and
/// its impl block with render and new.
pub open spec fn type_item_models(t: TypeV) -> Seq<EmitItem> {
    seq![
        EmitItem::Struct(StructModel { name: t.name, vis: "pub"@, fields: t.fields }),
        EmitItem::Impl(
            ImplModel {
                target: t.name,
                fns: seq![render_fn_model(t.fields, t.body), new_fn_model(t.fields)],
            },
        ),
    ]
}

/// The items one scope item emits.
pub open spec fn emitted_item(it: ItemV) -> Seq<EmitItem>
    decreases it,
{
    match it {
        ItemV::Type(t) => type_item_models(t),
        ItemV::Child(n, c) => seq![
            EmitItem::Module(ModuleModel { name: n, vis: "pub"@, items: emitted_items(c.items) }),
        ],
    }
}

/// The items a scope's item list emits, in order.
pub open spec fn emitted_items(items: Seq<ItemV>) -> Seq<EmitItem>
    decreases items,
{
    if items.len() == 0 {
        Seq::empty()
    } else {
        emitted_items(items.drop_last()) + emitted_item(items.last())
    }
}

proof fn lemma_emitted_items_push(items: Seq<ItemV>, x: ItemV)
    ensures
        emitted_items(items.push(x)) == emitted_items(items) + emitted_item(x),
{
    assert(items.push(x).drop_last() =~= items);
    assert(items.push(x).last() == x);
}

proof fn lemma_has_module_concat(a: Seq<EmitItem>, b: Seq<EmitItem>, name: Seq<char>)
    ensures
        has_module_named(a + b, name) <==> (has_module_named(a, name) || has_module_named(
            b,
            name,
        )),
    decreases b,
{
    if b.len() == 0 {
        assert(a + b =~= a);
    } else {
        assert((a + b).drop_last() =~= a + b.drop_last());
        assert((a + b).last() == b.last());
        lemma_has_module_concat(a, b.drop_last(), name);
    }
}

/// An item list whose child scopes all carry other names emits no module
/// named `name`.
proof fn lemma_no_module_in_emitted(items: Seq<ItemV>, name: Seq<char>)
    requires
        forall|k: int|
            0 <= k < items.len() ==> !(#[trigger] items[k] matches ItemV::Child(n, _) && n
                == name),
    ensures
        !has_module_named(emitted_items(items), name),
    decreases items,
{
    reveal_with_fuel(has_module_named, 4);
    if items.len() > 0 {
        lemma_has_module_concat(emitted_items(items.drop_last()), emitted_item(items.last()), name);
        assert(items[items.len() - 1] == items.last());
        match items.last() {
            ItemV::Type(t) => {
                let xs = type_item_models(t);
                assert(xs.last() == xs[1]);
                assert(xs.drop_last() =~= seq![xs[0]]);
                assert(seq![xs[0]].drop_last() =~= Seq::<EmitItem>::empty());
                assert(!has_module_named(xs, name));
            },
            ItemV::Child(n, c) => {
                let xs = emitted_item(items.last());
                assert(xs.last() == xs[0]);
                assert(xs.drop_last() =~= Seq::<EmitItem>::empty());
                assert(n != name);
                assert(!has_module_named(xs, name));
            },
        }
        assert forall|k: int|
            0 <= k < items.drop_last().len() implies !(#[trigger] items.drop_last()[k] matches
        ItemV::Child(n, _) && n == name) by {
            assert(items.drop_last()[k] == items[k]);
        }
        lemma_no_module_in_emitted(items.drop_last(), name);
    }
}

// ---------------------------------------------------------------------------
// Building the collaborator's values
// ---------------------------------------------------------------------------
/// Builds a public struct definition with one field per header field, in
/// declared order, each type name emitted verbatim.
pub(crate) fn build_struct(name: &str, fields: &Vec<(String, String)>) -> (r: codegen::Struct)
    ensures
        struct_model(r) == (StructModel { name: name@, vis: "pub"@, fields: fields.deep_view() }),
{
    let mut item = struct_new(name);
    struct_vis(&mut item, "pub");
    let mut idx: usize = 0;
    proof {
        assert(fields.deep_view().len() == fields@.len());
        assert(fields.deep_view().take(0) =~= Seq::<(Seq<char>, Seq<char>)>::empty());
    }
    while idx < fields.len()
        invariant
            0 <= idx <= fields@.len(),
            fields.deep_view().len() == fields@.len(),
            struct_model(item) == (StructModel {
                name: name@,
                vis: "pub"@,
                fields: fields.deep_view().take(idx as int),
            }),
        decreases fields@.len() - idx,
    {
        struct_field(&mut item, fields[idx].0.as_str(), fields[idx].1.as_str());
        proof {
            assert(fields.deep_view().take(idx as int + 1) =~= fields.deep_view().take(
                idx as int,
            ).push(fields.deep_view()[idx as int]));
        }
        idx = idx + 1;
    }
    proof {
        assert(fields.deep_view().take(fields@.len() as int) =~= fields.deep_view());
    }
    item
}

/// Builds the struct definition for a field list: a public struct with one
/// field per header field, in declared order.
pub fn generate_struct(data: &HeaderData) -> (r: codegen::Struct)
    ensures
        struct_model(r) == (StructModel {
            name: data.struct_name@,
            vis: "pub"@,
            fields: data.fields.deep_view(),
        }),
{
    build_struct(data.struct_name.as_str(), &data.fields)
}

/// Builds the impl block for a compiled template: a public `render` method
/// that binds one local per field and formats the render body, and a public
/// `new` constructor taking one parameter per field, in order.
pub(crate) fn build_impl(
    for_: codegen::Type,
    fields: &Vec<(String, String)>,
    render_body: &str,
) -> (r: codegen::Impl)
    ensures
        impl_model(r) == (ImplModel {
            target: type_text(for_),
            fns: seq![
                render_fn_model(fields.deep_view(), render_body@),
                new_fn_model(fields.deep_view()),
            ],
        }),
{
    let ghost dv = fields.deep_view();
    let ghost target = type_text(for_);
    let mut impl_ = impl_new(for_);

    let mut render = function_new("render");
    function_vis(&mut render, "pub");
    function_arg_self(&mut render);
    function_ret(&mut render, "String");
    let mut idx: usize = 0;
    proof {
        assert(dv.len() == fields@.len());
        assert(Seq::new(0, |k: int| render_line(dv[k].0)) =~= Seq::<Seq<char>>::empty());
    }
    while idx < fields.len()
        invariant
            0 <= idx <= fields@.len(),
            dv == fields.deep_view(),
            dv.len() == fields@.len(),
            fn_model(render) == (FnModel {
                name: "render"@,
                vis: "pub"@,
                takes_self: true,
                args: Seq::empty(),
                ret: Some("String"@),
                lines: Seq::new(idx as nat, |k: int| render_line(dv[k].0)),
            }),
        decreases fields@.len() - idx,
    {
        let mut line = String::from_str("let ");
        line.append(fields[idx].0.as_str());
        line.append(" = self.");
        line.append(fields[idx].0.as_str());
        line.append(";");
        function_line(&mut render, line.as_str());
        proof {
            assert(line@ == render_line(dv[idx as int].0));
            assert(Seq::new(idx as nat + 1, |k: int| render_line(dv[k].0)) =~= Seq::new(
                idx as nat,
                |k: int| render_line(dv[k].0),
            ).push(render_line(dv[idx as int].0)));
        }
        idx = idx + 1;
    }
    let mut format_text = String::from_str("format!(\"");
    format_text.append(render_body);
    format_text.append("\")");
    function_line(&mut render, format_text.as_str());
    proof {
        assert(fn_model(render) == render_fn_model(dv, render_body@));
    }
    impl_push_fn(&mut impl_, render);

    let mut new_fn = function_new("new");
    function_vis(&mut new_fn, "pub");
    let mut idx2: usize = 0;
    proof {
        assert(dv.take(0) =~= Seq::<(Seq<char>, Seq<char>)>::empty());
    }
    while idx2 < fields.len()
        invariant
            0 <= idx2 <= fields@.len(),
            dv == fields.deep_view(),
            dv.len() == fields@.len(),
            fn_model(new_fn) == (FnModel {
                name: "new"@,
                vis: "pub"@,
                takes_self: false,
                args: dv.take(idx2 as int),
                ret: None::<Seq<char>>,
                lines: Seq::empty(),
            }),
        decreases fields@.len() - idx2,
    {
        function_arg(&mut new_fn, fields[idx2].0.as_str(), fields[idx2].1.as_str());
        proof {
            assert(dv.take(idx2 as int + 1) =~= dv.take(idx2 as int).push(dv[idx2 as int]));
        }
        idx2 = idx2 + 1;
    }
    function_ret(&mut new_fn, "Self");
    let mut assignments = String::from_str("Self { ");
    let mut idx3: usize = 0;
    proof {
        assert(dv.take(0) =~= Seq::<(Seq<char>, Seq<char>)>::empty());
        assert("Self { "@ + joined_names(dv.take(0)) =~= "Self { "@);
    }
    while idx3 < fields.len()
        invariant
            0 <= idx3 <= fields@.len(),
            dv == fields.deep_view(),
            dv.len() == fields@.len(),
            assignments@ == "Self { "@ + joined_names(dv.take(idx3 as int)),
        decreases fields@.len() - idx3,
    {
        if idx3 > 0 {
            assignments.append(", ");
        }
        assignments.append(fields[idx3].0.as_str());
        proof {
            let prefix = dv.take(idx3 as int);
            let next = dv.take(idx3 as int + 1);
            assert(next.drop_last() =~= prefix);
            assert(next.last() == dv[idx3 as int]);
            if idx3 == 0 {
                assert(joined_names(next) == dv[0].0);
                assert("Self { "@ + Seq::<char>::empty() =~= "Self { "@);
            } else {
                assert(joined_names(next) == joined_names(prefix) + ", "@ + dv[idx3 as int].0);
                assert(("Self { "@ + joined_names(prefix)) + ", "@ + dv[idx3 as int].0 =~= "Self { "@
                    + (joined_names(prefix) + ", "@ + dv[idx3 as int].0));
            }
        }
        idx3 = idx3 + 1;
    }
    assignments.append(" }");
    function_line(&mut new_fn, assignments.as_str());
    proof {
        assert(dv.take(dv.len() as int) =~= dv);
        assert(assignments@ == ctor_line(dv));
        assert(fn_model(new_fn) == new_fn_model(dv));
    }
    impl_push_fn(&mut impl_, new_fn);
    proof {
        assert(impl_model(impl_).fns =~= seq![
            render_fn_model(dv, render_body@),
            new_fn_model(dv),
        ]);
    }
    impl_
}

/// Builds the impl block for the document `html`: the render body is the
/// document stripped of its header block, minified, and with its
/// placeholders rewritten.
pub fn generate_implementation(
    html: &str,
    for_: codegen::Type,
    header: &HeaderData,
) -> (r: codegen::Impl)
    ensures
        impl_model(r) == (ImplModel {
            target: type_text(for_),
            fns: seq![
                render_fn_model(header.fields.deep_view(), render_body_of(html@)),
                new_fn_model(header.fields.deep_view()),
            ],
        }),
{
    let without_header = strip_header(html);
    let processed = minify_html(without_header.as_str());
    let output = substitute(processed.as_str());
    build_impl(for_, &header.fields, output.as_str())
}

/// Compiles one in-memory document into Rust source text: a public struct
/// named after the file's stem, first letter capitalized, with the header's
/// fields, and an impl block with the render method and the constructor.
/// The text is the collaborator's rendering of exactly those two items.
pub fn convert_html_to_rs(html: String, file_name: &str) -> (r: Result<String, ConversionError>)
    ensures
        r is Ok <==> file_name@.len() > 0 && header_well_formed(html@),
        r matches Ok(text) ==> text@ == rendered_scope(
            type_item_models(
                TypeV {
                    name: type_name_of(file_name@),
                    fields: scan_candidates(html@, 0),
                    body: render_body_of(html@),
                },
            ),
        ),
        r == Err::<String, ConversionError>(ConversionError::FileNameInvalid) <==> file_name@.len()
            == 0,
        file_name@.len() > 0 && !header_well_formed(html@) ==> (r matches Err(e) && (e matches
        ConversionError::Header(h) && (h matches HeaderExtractionError::MalformedFieldType {
            line,
        } && line == first_empty_type(scan_candidates(html@, 0)) + 1))),
{
    let struct_name = match derive_type_name(file_name) {
        Ok(s) => s,
        Err(e) => {
            return Err(e);
        },
    };
    let header_data = match extract_header(html.as_str(), struct_name.as_str()) {
        Ok(hd) => hd,
        Err(e) => {
            return Err(ConversionError::Header(e));
        },
    };
    let struct_ = generate_struct(&header_data);
    let ty = struct_ty(&struct_);
    let impl_ = generate_implementation(html.as_str(), ty, &header_data);

    let mut scope = scope_new();
    scope_push_struct(&mut scope, struct_);
    scope_push_impl(&mut scope, impl_);
    proof {
        assert(scope_items_model(scope) =~= type_item_models(
            TypeV {
                name: type_name_of(file_name@),
                fields: scan_candidates(html@, 0),
                body: render_body_of(html@),
            },
        ));
    }
    Ok(scope_to_string(&scope))
}

/// Builds the struct and impl block of one compiled type and pushes them
/// into the module.
fn emit_type_into_module(module: &mut codegen::Module, gt: &GeneratedType)
    ensures
        module_model(*final(module)) == (ModuleModel {
            name: module_model(*old(module)).name,
            vis: module_model(*old(module)).vis,
            items: module_model(*old(module)).items + type_item_models(type_view(*gt)),
        }),
{
    let st = build_struct(gt.name.as_str(), &gt.fields);
    let ty = struct_ty(&st);
    let im = build_impl(ty, &gt.fields, gt.render_body.as_str());
    module_push_struct(module, st);
    module_push_impl(module, im);
    proof {
        assert(module_model(*module).items =~= module_model(*old(module)).items
            + type_item_models(type_view(*gt)));
    }
}

/// Builds the public module for a child scope: its compiled types and its
/// own child modules, in assembly order. Child scopes must have distinct
/// names at every level: the collaborator refuses a second module of one
/// name in one scope.
fn emit_node_as_module(name: &str, node: &ScopeNode) -> (m: codegen::Module)
    requires
        distinct_children(node_view(*node)),
    ensures
        module_model(m) == (ModuleModel {
            name: name@,
            vis: "pub"@,
            items: emitted_items(node_view(*node).items),
        }),
    decreases node,
{
    let ghost items_v = items_view(node.items@);
    proof {
        lemma_items_view(node.items@);
        assert(items_v.take(0) =~= Seq::<ItemV>::empty());
    }
    let mut module = module_new(name);
    module_vis(&mut module, "pub");
    let mut i: usize = 0;
    while i < node.items.len()
        invariant
            0 <= i <= node.items@.len(),
            items_v == items_view(node.items@),
            items_v.len() == node.items@.len(),
            forall|k: int| 0 <= k < node.items@.len() ==> items_v[k] == item_view(
                node.items@[k],
            ),
            distinct_children(node_view(*node)),
            node_view(*node).items == items_v,
            module_model(module) == (ModuleModel {
                name: name@,
                vis: "pub"@,
                items: emitted_items(items_v.take(i as int)),
            }),
        decreases node.items@.len() - i,
    {
        proof {
            assert(items_v.take(i as int + 1) =~= items_v.take(i as int).push(
                items_v[i as int],
            ));
            lemma_emitted_items_push(items_v.take(i as int), items_v[i as int]);
        }
        match &node.items[i] {
            ScopeItem::Type(gt) => {
                emit_type_into_module(&mut module, gt);
                proof {
                    assert(emitted_item(items_v[i as int]) == type_item_models(type_view(*gt)));
                }
            },
            ScopeItem::Child(nm, child) => {
                proof {
                    assert(items_v[i as int] matches ItemV::Child(n, _) && n == nm@);
                    assert(item_children_distinct(items_v[i as int]));
                    assert forall|k: int|
                        0 <= k < items_v.take(i as int).len() implies !(#[trigger] items_v.take(
                        i as int,
                    )[k] matches ItemV::Child(n, _) && n == nm@) by {
                        assert(items_v.take(i as int)[k] == items_v[k]);
                    }
                    lemma_no_module_in_emitted(items_v.take(i as int), nm@);
                }
                let inner = emit_node_as_module(nm.as_str(), child);
                module_push_module(&mut module, inner);
                proof {
                    assert(emitted_item(items_v[i as int]) =~= seq![
                        EmitItem::Module(
                            ModuleModel {
                                name: nm@,
                                vis: "pub"@,
                                items: emitted_items(node_view(*child).items),
                            },
                        ),
                    ]);
                    assert(module_model(module).items =~= emitted_items(items_v.take(i as int))
                        + emitted_item(items_v[i as int]));
                }
            },
        }
        i = i + 1;
    }
    proof {
        assert(items_v.take(items_v.len() as int) =~= items_v);
    }
    module
}

/// Renders a whole assembled scope tree as Rust source text: each compiled
/// type becomes a struct and an impl block, each child scope a public
/// module, in assembly order. Child scopes must have distinct names at
/// every level, as they are after assembly.
pub fn emit_scope_node(node: &ScopeNode) -> (r: String)
    requires
        distinct_children(node_view(*node)),
    ensures
        r@ == rendered_scope(emitted_items(node_view(*node).items)),
{
    let ghost items_v = items_view(node.items@);
    proof {
        lemma_items_view(node.items@);
        assert(items_v.take(0) =~= Seq::<ItemV>::empty());
    }
    let mut scope = scope_new();
    let mut i: usize = 0;
    while i < node.items.len()
        invariant
            0 <= i <= node.items@.len(),
            items_v == items_view(node.items@),
            items_v.len() == node.items@.len(),
            forall|k: int| 0 <= k < node.items@.len() ==> items_v[k] == item_view(
                node.items@[k],
            ),
            distinct_children(node_view(*node)),
            node_view(*node).items == items_v,
            scope_items_model(scope) == emitted_items(items_v.take(i as int)),
        decreases node.items@.len() - i,
    {
        proof {
            assert(items_v.take(i as int + 1) =~= items_v.take(i as int).push(
                items_v[i as int],
            ));
            lemma_emitted_items_push(items_v.take(i as int), items_v[i as int]);
        }
        match &node.items[i] {
            ScopeItem::Type(gt) => {
                let st = build_struct(gt.name.as_str(), &gt.fields);
                let ty = struct_ty(&st);
                let im = build_impl(ty, &gt.fields, gt.render_body.as_str());
                scope_push_struct(&mut scope, st);
                scope_push_impl(&mut scope, im);
                proof {
                    assert(emitted_item(items_v[i as int]) == type_item_models(type_view(*gt)));
                    assert(scope_items_model(scope) =~= emitted_items(items_v.take(i as int))
                        + emitted_item(items_v[i as int]));
                }
            },
            ScopeItem::Child(nm, child) => {
                proof {
                    assert(items_v[i as int] matches ItemV::Child(n, _) && n == nm@);
                    assert(item_children_distinct(items_v[i as int]));
                    assert forall|k: int|
                        0 <= k < items_v.take(i as int).len() implies !(#[trigger] items_v.take(
                        i as int,
                    )[k] matches ItemV::Child(n, _) && n == nm@) by {
                        assert(items_v.take(i as int)[k] == items_v[k]);
                    }
                    lemma_no_module_in_emitted(items_v.take(i as int), nm@);
                }
                let module = emit_node_as_module(nm.as_str(), child);
                scope_push_module(&mut scope, module);
                proof {
                    assert(emitted_item(items_v[i as int]) =~= seq![
                        EmitItem::Module(
                            ModuleModel {
                                name: nm@,
                                vis: "pub"@,
                                items: emitted_items(node_view(*child).items),
                            },
                        ),
                    ]);
                    assert(scope_items_model(scope) =~= emitted_items(items_v.take(i as int))
                        + emitted_item(items_v[i as int]));
                }
            },
        }
        i = i + 1;
    }
    proof {
        assert(items_v.take(items_v.len() as int) =~= items_v);
    }
    scope_to_string(&scope)
}

/// Converts a whole in-memory directory listing: the entries are assembled
/// into a scope tree, which is rendered as Rust source text. Succeeds
/// exactly when assembly of every entry succeeds, with the collaborator's
/// rendering of the assembled tree's items; fails with the first failing
/// entry's error.
pub fn convert_entries(entries: &Vec<DirEntry>) -> (r: Result<String, ConversionError>)
    ensures
        r is Ok <==> assemble_v(entries_view(entries@), NodeV { items: Seq::empty() }) is Ok,
        r matches Ok(text) ==> text@ == rendered_scope(
            emitted_items(
                assemble_v(entries_view(entries@), NodeV { items: Seq::empty() })->Ok_0.items,
            ),
        ),
        r matches Err(e) ==> assemble_v(entries_view(entries@), NodeV { items: Seq::empty() })
            == Err::<NodeV, ConversionError>(e),
{
    match assemble(entries) {
        Ok(node) => {
            proof {
                assert(distinct_children(NodeV { items: Seq::empty() }));
                lemma_assemble_distinct(
                    entries_view(entries@),
                    NodeV { items: Seq::empty() },
                    node_view(node),
                );
            }
            Ok(emit_scope_node(&node))
        },
        Err(e) => Err(e),
    }
}

} // verus!

