//! What one parsed file contributes to a module: the `required_version`
//! attributes of its `terraform` blocks, and the provider requirements of
//! their `required_providers` blocks, merged into what earlier files gave.
use vstd::prelude::*;
use crate::discovery::views;
use crate::document::{
    field_views, Attribute, Block, Body, FieldView, KeyView, ObjectField, ObjectKey,
};
use crate::module::{
    lemma_position_first, names_unique, position, Error, ErrorView, Module, ModuleView,
    ProviderRequirement, RequirementView,
};
use crate::text::{is_word, strip_quotes, unquoted};

verus! {

/// The text of the first entry whose key is the bare identifier `name`.
pub open spec fn field_value(fields: Seq<FieldView>, name: Seq<char>) -> Option<Seq<char>>
    decreases fields.len(),
{
    if fields.len() == 0 {
        None
    } else if fields[0].key == KeyView::Identifier(name) {
        Some(fields[0].value)
    } else {
        field_value(fields.drop_first(), name)
    }
}

/// The requirement that one object-valued provider attribute declares.
pub open spec fn requirement_of(fields: Seq<FieldView>) -> RequirementView {
    RequirementView {
        source: match field_value(fields, "source"@) {
            Some(s) => unquoted(s),
            None => Seq::empty(),
        },
        versions: match field_value(fields, "version"@) {
            Some(v) => seq![unquoted(v)],
            None => Seq::empty(),
        },
        aliases: Seq::empty(),
    }
}

/// Adds `req` to the providers under `name`: a new entry when the name is
/// new; else the constraints are appended and the first non-empty source is
/// kept, and two different non-empty sources are a conflict.
pub open spec fn merge(
    ps: Seq<(Seq<char>, RequirementView)>,
    name: Seq<char>,
    req: RequirementView,
) -> Result<Seq<(Seq<char>, RequirementView)>, ErrorView> {
    match position(ps, name) {
        None => Ok(ps.push((name, req))),
        Some(i) => {
            let old = ps[i].1;
            if old.source.len() > 0 && req.source.len() > 0 && old.source != req.source {
                Err(
                    ErrorView::ConflictingSource {
                        provider: name,
                        existing: old.source,
                        found: req.source,
                    },
                )
            } else {
                Ok(
                    ps.update(
                        i,
                        (
                            name,
                            RequirementView {
                                source: if old.source.len() == 0 {
                                    req.source
                                } else {
                                    old.source
                                },
                                versions: old.versions + req.versions,
                                aliases: old.aliases,
                            },
                        ),
                    ),
                )
            }
        },
    }
}

/// One attribute of a `required_providers` block.
pub open spec fn provider_step(m: ModuleView, file: Seq<char>, a: Attribute) -> Result<
    ModuleView,
    ErrorView,
> {
    match a.expr@.object {
        None => Err(
            ErrorView::UnexpectedExpr { attribute_key: a.key@, expr: a.expr@, file_name: file },
        ),
        Some(fields) => match merge(m.providers, a.key@, requirement_of(fields)) {
            Ok(ps) => Ok(ModuleView { providers: ps, ..m }),
            Err(e) => Err(e),
        },
    }
}

/// The attributes of a `required_providers` block, in order; the first
/// error ends it.
pub open spec fn apply_providers(m: ModuleView, file: Seq<char>, attrs: Seq<Attribute>) -> Result<
    ModuleView,
    ErrorView,
>
    decreases attrs.len(),
{
    if attrs.len() == 0 {
        Ok(m)
    } else {
        match apply_providers(m, file, attrs.drop_last()) {
            Ok(m2) => provider_step(m2, file, attrs.last()),
            Err(e) => Err(e),
        }
    }
}

/// The constraints of the `required_version` attributes, quotes removed.
pub open spec fn core_versions(attrs: Seq<Attribute>) -> Seq<Seq<char>>
    decreases attrs.len(),
{
    if attrs.len() == 0 {
        Seq::empty()
    } else if attrs.last().key@ == "required_version"@ {
        core_versions(attrs.drop_last()).push(unquoted(attrs.last().expr.text@))
    } else {
        core_versions(attrs.drop_last())
    }
}

/// The blocks nested in a `terraform` block; only `required_providers`
/// blocks count.
pub open spec fn apply_inner_blocks(m: ModuleView, file: Seq<char>, blocks: Seq<Block>) -> Result<
    ModuleView,
    ErrorView,
>
    decreases blocks.len(),
{
    if blocks.len() == 0 {
        Ok(m)
    } else {
        match apply_inner_blocks(m, file, blocks.drop_last()) {
            Ok(m2) => if blocks.last().identifier@ == "required_providers"@ {
                apply_providers(m2, file, blocks.last().body.attributes@)
            } else {
                Ok(m2)
            },
            Err(e) => Err(e),
        }
    }
}

/// A `terraform` block: its core constraints first, then its nested blocks.
pub open spec fn apply_terraform(m: ModuleView, file: Seq<char>, body: Body) -> Result<
    ModuleView,
    ErrorView,
> {
    apply_inner_blocks(
        ModuleView { core: m.core + core_versions(body.attributes@), ..m },
        file,
        body.blocks@,
    )
}

/// The top-level blocks of a file; only `terraform` blocks count.
pub open spec fn apply_blocks(m: ModuleView, file: Seq<char>, blocks: Seq<Block>) -> Result<
    ModuleView,
    ErrorView,
>
    decreases blocks.len(),
{
    if blocks.len() == 0 {
        Ok(m)
    } else {
        match apply_blocks(m, file, blocks.drop_last()) {
            Ok(m2) => if blocks.last().identifier@ == "terraform"@ {
                apply_terraform(m2, file, blocks.last().body)
            } else {
                Ok(m2)
            },
            Err(e) => Err(e),
        }
    }
}

/// What the file `file` with contents `body` makes of the module `m`.
pub open spec fn apply_file(m: ModuleView, file: Seq<char>, body: Body) -> Result<
    ModuleView,
    ErrorView,
> {
    apply_blocks(m, file, body.blocks@)
}

/// How a mutating step stands against its specification.
pub open spec fn outcome(
    expected: Result<ModuleView, ErrorView>,
    r: Result<(), Error>,
    after: ModuleView,
) -> bool {
    match expected {
        Ok(m) => r is Ok && after == m,
        Err(e) => r matches Err(err) && err@ == e,
    }
}

/// Once a prefix of the attributes fails, the whole ends in that same error.
pub proof fn lemma_providers_err(m: ModuleView, file: Seq<char>, attrs: Seq<Attribute>, k: int)
    requires
        0 <= k <= attrs.len(),
        apply_providers(m, file, attrs.take(k)) is Err,
    ensures
        apply_providers(m, file, attrs) == apply_providers(m, file, attrs.take(k)),
    decreases attrs.len() - k,
{
    if k < attrs.len() {
        assert(attrs.take(k + 1).drop_last() =~= attrs.take(k));
        lemma_providers_err(m, file, attrs, k + 1);
    } else {
        assert(attrs.take(k) =~= attrs);
    }
}

/// Once a prefix of the nested blocks fails, the whole ends in that same error.
pub proof fn lemma_inner_err(m: ModuleView, file: Seq<char>, blocks: Seq<Block>, k: int)
    requires
        0 <= k <= blocks.len(),
        apply_inner_blocks(m, file, blocks.take(k)) is Err,
    ensures
        apply_inner_blocks(m, file, blocks) == apply_inner_blocks(m, file, blocks.take(k)),
    decreases blocks.len() - k,
{
    if k < blocks.len() {
        assert(blocks.take(k + 1).drop_last() =~= blocks.take(k));
        lemma_inner_err(m, file, blocks, k + 1);
    } else {
        assert(blocks.take(k) =~= blocks);
    }
}

/// Once a prefix of the top-level blocks fails, the whole ends in that same error.
pub proof fn lemma_blocks_err(m: ModuleView, file: Seq<char>, blocks: Seq<Block>, k: int)
    requires
        0 <= k <= blocks.len(),
        apply_blocks(m, file, blocks.take(k)) is Err,
    ensures
        apply_blocks(m, file, blocks) == apply_blocks(m, file, blocks.take(k)),
    decreases blocks.len() - k,
{
    if k < blocks.len() {
        assert(blocks.take(k + 1).drop_last() =~= blocks.take(k));
        lemma_blocks_err(m, file, blocks, k + 1);
    } else {
        assert(blocks.take(k) =~= blocks);
    }
}

/// The text of the first entry keyed by the identifier `name`.
fn find_field<'a>(fields: &'a Vec<ObjectField>, name: &str) -> (r: Option<&'a String>)
    ensures
        r matches Some(v) ==> field_value(field_views(fields@), name@) == Some(
            v@,
        ),
        r is None ==> field_value(field_views(fields@), name@) is None,
{
    let ghost all = field_views(fields@);
    let mut i: usize = 0;
    assert(all.skip(0) =~= all);
    while i < fields.len()
        invariant
            i <= fields.len(),
            all == field_views(fields@),
            field_value(all, name@) == field_value(all.skip(i as int), name@),
        decreases fields.len() - i,
    {
        assert(all.skip(i as int).drop_first() =~= all.skip(i + 1));
        assert(all.skip(i as int)[0] == fields@[i as int]@);
        match &fields[i].key {
            ObjectKey::Identifier(k) => {
                if is_word(k.as_str(), name) {
                    return Some(&fields[i].value);
                }
            },
            ObjectKey::Expression(_) => {},
        }
        i += 1;
    }
    None
}

/// Records `req` under `name`, or reports a conflict and leaves the module
/// as it was.
fn merge_requirement(module: &mut Module, name: String, req: ProviderRequirement) -> (r: Result<
    (),
    Error,
>)
    requires
        old(module)@.wf(),
    ensures
        outcome(
            match merge(old(module)@.providers, name@, req@) {
                Ok(ps) => Ok(ModuleView { providers: ps, ..old(module)@ }),
                Err(e) => Err(e),
            },
            r,
            final(module)@,
        ),
        r is Err ==> final(module)@ == old(module)@,
        final(module)@.wf(),
{
    let ghost ps = module@.providers;
    match module.find_provider(name.as_str()) {
        None => {
            module.required_providers.push((name, req));
            assert(module@.providers =~= ps.push((name@, req@)));
            assert(names_unique(module@.providers)) by {
                assert forall|j: int| 0 <= j < ps.len() implies ps[j].0 != name@ by {
                    if ps[j].0 == name@ {
                        assert(exists|i: int| 0 <= i < ps.len() && ps[i].0 == name@);
                    }
                }
            }
            Ok(())
        },
        Some(i) => {
            let existing = &module.required_providers[i].1.source;
            proof {
                assert(ps[i as int].0 == name@);
            }
            if !existing.as_str().is_empty() && !req.source.as_str().is_empty() && !is_word(
                existing.as_str(),
                req.source.as_str(),
            ) {
                return Err(
                    Error::ConflictingSource {
                        provider: name,
                        existing: existing.clone(),
                        found: req.source,
                    },
                );
            }
            let (key, mut entry) = module.required_providers.remove(i);
            let ghost before = entry.version_constraints@;
            let mut more = req.version_constraints;
            entry.version_constraints.append(&mut more);
            assert(views(entry.version_constraints@) =~= views(before) + req@.versions);
            if entry.source.as_str().is_empty() {
                entry.source = req.source;
            }
            module.required_providers.insert(i, (key, entry));
            assert(module@.providers =~= ps.update(
                i as int,
                (
                    name@,
                    RequirementView {
                        source: if ps[i as int].1.source.len() == 0 {
                            req@.source
                        } else {
                            ps[i as int].1.source
                        },
                        versions: ps[i as int].1.versions + req@.versions,
                        aliases: ps[i as int].1.aliases,
                    },
                ),
            ));
            Ok(())
        },
    }
}

fn handle_required_providers_block(
    current_file: &String,
    required_providers: &Body,
    module: &mut Module,
) -> (r: Result<(), Error>)
    requires
        old(module)@.wf(),
    ensures
        outcome(
            apply_providers(old(module)@, current_file@, required_providers.attributes@),
            r,
            final(module)@,
        ),
        final(module)@.wf(),
{
    let ghost m0 = module@;
    let ghost attrs = required_providers.attributes@;
    let mut i: usize = 0;
    assert(attrs.take(0) =~= Seq::<Attribute>::empty());
    while i < required_providers.attributes.len()
        invariant
            i <= attrs.len(),
            attrs == required_providers.attributes@,
            m0 == old(module)@,
            apply_providers(m0, current_file@, attrs.take(i as int)) == Ok::<ModuleView, ErrorView>(module@),
            module@.wf(),
        decreases attrs.len() - i,
    {
        let provider = &required_providers.attributes[i];
        assert(attrs.take(i + 1).drop_last() =~= attrs.take(i as int));
        assert(attrs.take(i + 1).last() == attrs[i as int]);
        match &provider.expr.object {
            None => {
                proof {
                    lemma_providers_err(m0, current_file@, attrs, i + 1);
                }
                let e = Error::UnexpectedExpr {
                    attribute_key: provider.key.clone(),
                    expr: provider.expr.copy(),
                    file_name: current_file.clone(),
                };
                return Err(e);
            },
            Some(fields) => {
                let source = match find_field(fields, "source") {
                    Some(s) => strip_quotes(s.as_str()),
                    None => String::new(),
                };
                let mut versions: Vec<String> = Vec::new();
                match find_field(fields, "version") {
                    Some(v) => versions.push(strip_quotes(v.as_str())),
                    None => {},
                }
                let req = ProviderRequirement::new(source, versions);
                assert(req@.versions =~= requirement_of(provider.expr@.object->Some_0).versions);
                match merge_requirement(module, provider.key.clone(), req) {
                    Ok(()) => {},
                    Err(e) => {
                        proof {
                            lemma_providers_err(m0, current_file@, attrs, i + 1);
                        }
                        return Err(e);
                    },
                }
            },
        }
        i += 1;
    }
    assert(attrs.take(i as int) =~= attrs);
    Ok(())
}

fn handle_terraform_block(current_file: &String, body: &Body, module: &mut Module) -> (r: Result<
    (),
    Error,
>)
    requires
        old(module)@.wf(),
    ensures
        outcome(apply_terraform(old(module)@, current_file@, *body), r, final(module)@),
        final(module)@.wf(),
{
    let ghost m0 = module@;
    let ghost attrs = body.attributes@;
    let mut i: usize = 0;
    assert(attrs.take(0) =~= Seq::<Attribute>::empty());
    assert(m0.core + core_versions(attrs.take(0)) =~= m0.core);
    while i < body.attributes.len()
        invariant
            i <= attrs.len(),
            attrs == body.attributes@,
            m0 == old(module)@,
            module@ == (ModuleView { core: m0.core + core_versions(attrs.take(i as int)), ..m0 }),
            module@.wf(),
        decreases attrs.len() - i,
    {
        let attr = &body.attributes[i];
        assert(attrs.take(i + 1).drop_last() =~= attrs.take(i as int));
        assert(attrs.take(i + 1).last() == attrs[i as int]);
        let ghost before = module.required_core@;
        if is_word(attr.key.as_str(), "required_version") {
            module.required_core.push(strip_quotes(attr.expr.text.as_str()));
            assert(views(module.required_core@) =~= views(before).push(
                unquoted(attrs[i as int].expr.text@),
            ));
        }
        assert(module@.core =~= m0.core + core_versions(attrs.take(i + 1)));
        i += 1;
    }
    assert(attrs.take(i as int) =~= attrs);
    let ghost m1 = module@;
    let ghost blocks = body.blocks@;
    assert(apply_terraform(m0, current_file@, *body) == apply_inner_blocks(m1, current_file@, blocks));
    let mut j: usize = 0;
    assert(blocks.take(0) =~= Seq::<Block>::empty());
    while j < body.blocks.len()
        invariant
            j <= blocks.len(),
            blocks == body.blocks@,
            m0 == old(module)@,
            apply_terraform(m0, current_file@, *body) == apply_inner_blocks(m1, current_file@, blocks),
            apply_inner_blocks(m1, current_file@, blocks.take(j as int)) == Ok::<ModuleView, ErrorView>(module@),
            module@.wf(),
        decreases blocks.len() - j,
    {
        let inner_block = &body.blocks[j];
        assert(blocks.take(j + 1).drop_last() =~= blocks.take(j as int));
        assert(blocks.take(j + 1).last() == blocks[j as int]);
        if is_word(inner_block.identifier.as_str(), "required_providers") {
            match handle_required_providers_block(current_file, &inner_block.body, module) {
                Ok(()) => {},
                Err(e) => {
                    proof {
                        lemma_inner_err(m1, current_file@, blocks, j + 1);
                    }
                    return Err(e);
                },
            }
        }
        j += 1;
    }
    assert(blocks.take(j as int) =~= blocks);
    Ok(())
}

/// Adds what the parsed file `file`, read from `current_file`, declares to
/// `module`. On success the module is exactly what the file makes of it; on
/// failure the error is the first one the file holds.
pub fn load_module_from_file(current_file: &String, file: Body, module: &mut Module) -> (r: Result<
    (),
    Error,
>)
    requires
        old(module)@.wf(),
    ensures
        outcome(apply_file(old(module)@, current_file@, file), r, final(module)@),
        final(module)@.wf(),
{
    let ghost m0 = module@;
    let ghost blocks = file.blocks@;
    let mut i: usize = 0;
    assert(blocks.take(0) =~= Seq::<Block>::empty());
    while i < file.blocks.len()
        invariant
            i <= blocks.len(),
            blocks == file.blocks@,
            m0 == old(module)@,
            apply_blocks(m0, current_file@, blocks.take(i as int)) == Ok::<ModuleView, ErrorView>(module@),
            module@.wf(),
        decreases blocks.len() - i,
    {
        let block = &file.blocks[i];
        assert(blocks.take(i + 1).drop_last() =~= blocks.take(i as int));
        assert(blocks.take(i + 1).last() == blocks[i as int]);
        if is_word(block.identifier.as_str(), "terraform") {
            match handle_terraform_block(current_file, &block.body, module) {
                Ok(()) => {},
                Err(e) => {
                    proof {
                        lemma_blocks_err(m0, current_file@, blocks, i + 1);
                    }
                    return Err(e);
                },
            }
        }
        i += 1;
    }
    assert(blocks.take(i as int) =~= blocks);
    Ok(())
}

} // verus!
