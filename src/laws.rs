//! Properties that hold across calls and over all inputs.
use vstd::prelude::*;
use crate::discovery::{entry_kind, file_order, names_of_kind, override_name, DirEntry};
use crate::document::{Attribute, Block, Body};
use crate::extract::{
    apply_blocks, apply_file, apply_inner_blocks, apply_providers, core_versions, lemma_providers_err,
    merge, provider_step,
};
use crate::load::{empty_module, file_step, load_files, FileContents, SourceFile};
use crate::module::{lemma_position_first, position, ErrorView, ModuleView, RequirementView};

verus! {

/// The core constraints of the `terraform` blocks among `blocks`, in order.
pub open spec fn blocks_core(blocks: Seq<Block>) -> Seq<Seq<char>>
    decreases blocks.len(),
{
    if blocks.len() == 0 {
        Seq::empty()
    } else if blocks.last().identifier@ == "terraform"@ {
        blocks_core(blocks.drop_last()) + core_versions(blocks.last().body.attributes@)
    } else {
        blocks_core(blocks.drop_last())
    }
}

/// The core constraints that a parsed file declares, in order.
pub open spec fn file_core(body: Body) -> Seq<Seq<char>> {
    blocks_core(body.blocks@)
}

/// The core constraints of the parsed files among `files`, file after file.
pub open spec fn files_core(files: Seq<SourceFile>) -> Seq<Seq<char>>
    decreases files.len(),
{
    if files.len() == 0 {
        Seq::empty()
    } else {
        match files.last().contents {
            FileContents::Parsed(body) => files_core(files.drop_last()) + file_core(body),
            _ => files_core(files.drop_last()),
        }
    }
}

proof fn lemma_providers_keep_core(m: ModuleView, file: Seq<char>, attrs: Seq<Attribute>)
    requires
        apply_providers(m, file, attrs) is Ok,
    ensures
        apply_providers(m, file, attrs)->Ok_0.core == m.core,
    decreases attrs.len(),
{
    if attrs.len() > 0 {
        lemma_providers_keep_core(m, file, attrs.drop_last());
    }
}

proof fn lemma_inner_keep_core(m: ModuleView, file: Seq<char>, blocks: Seq<Block>)
    requires
        apply_inner_blocks(m, file, blocks) is Ok,
    ensures
        apply_inner_blocks(m, file, blocks)->Ok_0.core == m.core,
    decreases blocks.len(),
{
    if blocks.len() > 0 {
        lemma_inner_keep_core(m, file, blocks.drop_last());
        let m2 = apply_inner_blocks(m, file, blocks.drop_last())->Ok_0;
        if blocks.last().identifier@ == "required_providers"@ {
            lemma_providers_keep_core(m2, file, blocks.last().body.attributes@);
        }
    }
}

proof fn lemma_blocks_core(m: ModuleView, file: Seq<char>, blocks: Seq<Block>)
    requires
        apply_blocks(m, file, blocks) is Ok,
    ensures
        apply_blocks(m, file, blocks)->Ok_0.core == m.core + blocks_core(blocks),
    decreases blocks.len(),
{
    if blocks.len() == 0 {
        assert(m.core + blocks_core(blocks) =~= m.core);
    } else {
        lemma_blocks_core(m, file, blocks.drop_last());
        let m2 = apply_blocks(m, file, blocks.drop_last())->Ok_0;
        let last = blocks.last();
        if last.identifier@ == "terraform"@ {
            let m3 = ModuleView { core: m2.core + core_versions(last.body.attributes@), ..m2 };
            lemma_inner_keep_core(m3, file, last.body.blocks@);
            assert(m.core + blocks_core(blocks) =~= m2.core + core_versions(last.body.attributes@));
        }
    }
}

proof fn lemma_files_core(m: ModuleView, files: Seq<SourceFile>, strict: bool)
    requires
        load_files(m, files, strict) is Ok,
    ensures
        load_files(m, files, strict)->Ok_0.core == m.core + files_core(files),
    decreases files.len(),
{
    if files.len() == 0 {
        assert(m.core + files_core(files) =~= m.core);
    } else {
        lemma_files_core(m, files.drop_last(), strict);
        let m2 = load_files(m, files.drop_last(), strict)->Ok_0;
        match files.last().contents {
            FileContents::Parsed(body) => {
                lemma_blocks_core(m2, files.last().name@, body.blocks@);
                assert(m.core + files_core(files) =~= m2.core + file_core(body));
            },
            _ => {},
        }
    }
}

/// A module that loads holds every `required_version` constraint of every
/// parsed file, file after file and in declaration order within a file, and
/// nothing else.
pub proof fn lemma_core_in_file_order(path: Seq<char>, files: Seq<SourceFile>, strict: bool)
    requires
        load_files(empty_module(path), files, strict) is Ok,
    ensures
        load_files(empty_module(path), files, strict)->Ok_0.core == files_core(files),
        load_files(empty_module(path), files, strict)->Ok_0.core.len() == files_core(files).len(),
{
    lemma_files_core(empty_module(path), files, strict);
    assert(empty_module(path).core + files_core(files) =~= files_core(files));
}

proof fn lemma_kind_names(es: Seq<DirEntry>, is_override: bool)
    ensures
        forall|i: int|
            0 <= i < names_of_kind(es, is_override).len() ==> override_name(
                #[trigger] names_of_kind(es, is_override)[i],
            ) == is_override,
    decreases es.len(),
{
    if es.len() > 0 {
        lemma_kind_names(es.drop_last(), is_override);
        let e = es.last();
        let rest = names_of_kind(es.drop_last(), is_override);
        let all = names_of_kind(es, is_override);
        assert forall|i: int| 0 <= i < all.len() implies override_name(#[trigger] all[i])
            == is_override by {
            if i < rest.len() {
                assert(all[i] == rest[i]);
            } else {
                assert(entry_kind(e) == Some(is_override));
                assert(all[i] == e.name@);
            }
        }
    }
}

/// In reading order, no primary file comes after an override file,
/// whatever the order of the listing.
pub proof fn lemma_overrides_after_primaries(entries: Seq<DirEntry>)
    ensures
        forall|a: int, b: int|
            0 <= a < b < file_order(entries).len() && override_name(
                #[trigger] file_order(entries)[a],
            ) ==> override_name(#[trigger] file_order(entries)[b]),
{
    lemma_kind_names(entries, false);
    lemma_kind_names(entries, true);
    let p = names_of_kind(entries, false);
    let o = names_of_kind(entries, true);
    assert forall|a: int, b: int|
        0 <= a < b < file_order(entries).len() && override_name(
            #[trigger] file_order(entries)[a],
        ) implies override_name(#[trigger] file_order(entries)[b]) by {
        if a < p.len() {
            assert(file_order(entries)[a] == p[a]);
        }
        assert(file_order(entries)[b] == o[b - p.len()]);
    }
}

/// Declaring one provider twice with the same non-empty source gives one
/// requirement with that source and both lists of constraints, in order.
pub proof fn lemma_same_source_accumulates(
    ps: Seq<(Seq<char>, RequirementView)>,
    name: Seq<char>,
    source: Seq<char>,
    first: Seq<Seq<char>>,
    second: Seq<Seq<char>>,
)
    requires
        position(ps, name) is None,
        source.len() > 0,
    ensures
        merge(ps, name, RequirementView { source, versions: first, aliases: Seq::empty() })
            == Ok::<_, ErrorView>(
            ps.push((name, RequirementView { source, versions: first, aliases: Seq::empty() })),
        ),
        merge(
            ps.push((name, RequirementView { source, versions: first, aliases: Seq::empty() })),
            name,
            RequirementView { source, versions: second, aliases: Seq::empty() },
        ) == Ok::<_, ErrorView>(
            ps.push(
                (name, RequirementView { source, versions: first + second, aliases: Seq::empty() }),
            ),
        ),
{
    let r1 = RequirementView { source, versions: first, aliases: Seq::empty() };
    let ps1 = ps.push((name, r1));
    assert forall|j: int| 0 <= j < ps.len() implies ps1[j].0 != name by {
        if ps1[j].0 == name {
            assert(ps[j].0 == name);
        }
    }
    lemma_position_first(ps1, name, ps.len() as int);
    assert(ps1.update(
        ps.len() as int,
        (name, RequirementView { source, versions: first + second, aliases: Seq::empty() }),
    ) =~= ps.push(
        (name, RequirementView { source, versions: first + second, aliases: Seq::empty() }),
    ));
}

/// Declaring one provider twice with two different non-empty sources is a
/// conflict that names the provider and both sources.
pub proof fn lemma_conflicting_sources(
    ps: Seq<(Seq<char>, RequirementView)>,
    name: Seq<char>,
    first: RequirementView,
    second: RequirementView,
)
    requires
        position(ps, name) is None,
        first.source.len() > 0,
        second.source.len() > 0,
        first.source != second.source,
    ensures
        merge(ps, name, first) == Ok::<_, ErrorView>(ps.push((name, first))),
        merge(ps.push((name, first)), name, second) == Err::<
            Seq<(Seq<char>, RequirementView)>,
            _,
        >(
            ErrorView::ConflictingSource {
                provider: name,
                existing: first.source,
                found: second.source,
            },
        ),
{
    let ps1 = ps.push((name, first));
    assert forall|j: int| 0 <= j < ps.len() implies ps1[j].0 != name by {
        if ps1[j].0 == name {
            assert(ps[j].0 == name);
        }
    }
    lemma_position_first(ps1, name, ps.len() as int);
}

/// A provider attribute whose value is not an object ends the file in an
/// error that names the attribute's key and the file.
pub proof fn lemma_non_object_rejected(
    m: ModuleView,
    file: Seq<char>,
    attrs: Seq<Attribute>,
    i: int,
)
    requires
        0 <= i < attrs.len(),
        attrs[i].expr@.object is None,
        apply_providers(m, file, attrs.take(i)) is Ok,
    ensures
        apply_providers(m, file, attrs) == Err::<ModuleView, _>(
            ErrorView::UnexpectedExpr {
                attribute_key: attrs[i].key@,
                expr: attrs[i].expr@,
                file_name: file,
            },
        ),
{
    assert(attrs.take(i + 1).drop_last() =~= attrs.take(i));
    assert(attrs.take(i + 1).last() == attrs[i]);
    lemma_providers_err(m, file, attrs, i + 1);
}

/// Without strictness, a file that could not be read or parsed changes
/// nothing: the result is that of the other files alone.
pub proof fn lemma_lenient_skips_broken_file(
    m: ModuleView,
    before: Seq<SourceFile>,
    broken: SourceFile,
    after: Seq<SourceFile>,
)
    requires
        broken.contents is Malformed || broken.contents is Unreadable,
    ensures
        load_files(m, before + seq![broken] + after, false) == load_files(m, before + after, false),
    decreases after.len(),
{
    let s1 = before + seq![broken] + after;
    let s2 = before + after;
    if after.len() == 0 {
        assert(s1.drop_last() =~= before);
        assert(s2 =~= before);
    } else {
        lemma_lenient_skips_broken_file(m, before, broken, after.drop_last());
        assert(s1.drop_last() =~= before + seq![broken] + after.drop_last());
        assert(s2.drop_last() =~= before + after.drop_last());
    }
}

/// With strictness, a file whose syntax the parser rejects ends the load in
/// a parse error, unless an earlier file already failed.
pub proof fn lemma_strict_rejects_malformed_file(
    m: ModuleView,
    before: Seq<SourceFile>,
    broken: SourceFile,
    after: Seq<SourceFile>,
)
    requires
        broken.contents is Malformed,
        load_files(m, before, true) is Ok,
    ensures
        load_files(m, before + seq![broken] + after, true) == Err::<ModuleView, _>(
            ErrorView::Parse(broken.contents->Malformed_0@),
        ),
    decreases after.len(),
{
    let s1 = before + seq![broken] + after;
    if after.len() == 0 {
        assert(s1.drop_last() =~= before);
    } else {
        lemma_strict_rejects_malformed_file(m, before, broken, after.drop_last());
        assert(s1.drop_last() =~= before + seq![broken] + after.drop_last());
    }
}

} // verus!
