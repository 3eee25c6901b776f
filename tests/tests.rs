use tfconfig::{
    load_module_from_file, load_module_from_files, order_files, Attribute, Block, Body, DirEntry,
    Error as TfConfigError, Expression, FileContents, Module, ObjectField, ObjectKey,
    SourceFile,
};

const VERSION_TF: &str = r#"terraform {
        required_version = "1.0.0"

        required_providers {
            mycloud = {
                source  = "mycorp/mycloud"
                version = "~> 1.0"
            }
        }
    }"#;

fn document(body: &hcl::Body) -> Body {
    let attributes = body
        .attributes()
        .map(|a| Attribute::new(a.key().to_string(), expression(a.expr())))
        .collect();
    let blocks = body
        .blocks()
        .map(|b| Block::new(b.identifier().to_string(), document(b.body())))
        .collect();
    Body::new(attributes, blocks)
}

fn expression(e: &hcl::Expression) -> Expression {
    match e {
        hcl::Expression::Object(object) => Expression::object(
            e.to_string(),
            object
                .iter()
                .map(|(k, v)| ObjectField::new(object_key(k), v.to_string()))
                .collect(),
        ),
        _ => Expression::other(e.to_string()),
    }
}

fn object_key(k: &hcl::ObjectKey) -> ObjectKey {
    match k {
        hcl::ObjectKey::Identifier(i) => ObjectKey::Identifier(i.to_string()),
        hcl::ObjectKey::Expression(e) => ObjectKey::Expression(e.to_string()),
        _ => ObjectKey::Expression(String::new()),
    }
}

fn parsed(text: &str) -> Body {
    document(&hcl::parse(text).expect("valid configuration"))
}

fn contents(bytes: &[u8]) -> FileContents {
    match std::str::from_utf8(bytes) {
        Err(e) => FileContents::Unreadable(e.to_string()),
        Ok(text) => match hcl::parse(text) {
            Ok(body) => FileContents::Parsed(document(&body)),
            Err(hcl::Error::Parse(e)) => FileContents::Malformed(e.to_string()),
            Err(e) => FileContents::Failed(e.to_string()),
        },
    }
}

fn source(dir: &str, name: &str, bytes: &[u8]) -> SourceFile {
    SourceFile::new(format!("{}/{}", dir, name), contents(bytes))
}

fn providers_block(entries: &str) -> String {
    format!("terraform {{\n required_providers {{\n {}\n }}\n}}", entries)
}

#[test]
fn test_load_module() {
    let dir = "test_load_module_from_file";
    let order = order_files(&vec![DirEntry::new("version.tf".to_string(), false)]);
    assert_eq!(order, vec!["version.tf".to_string()]);
    let files = vec![source(dir, &order[0], VERSION_TF.as_bytes())];
    let module = load_module_from_files(dir.to_string(), files, true).unwrap();

    assert_eq!(1, module.required_core.len());
    assert_eq!(Some(&"1.0.0".to_string()), module.required_core.first());

    assert_eq!(1, module.required_providers.len());
    let required_provider = module.provider("mycloud");
    assert!(required_provider.is_some());
    let required_provider = required_provider.unwrap();
    assert_eq!("mycorp/mycloud", required_provider.source);
    assert_eq!(1, required_provider.version_constraints.len());
    assert_eq!(
        Some(&"~> 1.0".to_string()),
        required_provider.version_constraints.first()
    );
}

#[test]
fn test_load_module_from_file() {
    let file = parsed(
        r#"terraform {
            required_version = "1.0.0"

            required_providers {
                mycloud = {
                    source  = "mycorp/mycloud"
                    version = "~> 1.0"
                }
            }
        }"#,
    );

    let path = String::new();
    let mut module = Module::new(path.clone());
    load_module_from_file(&path, file, &mut module).unwrap();

    assert_eq!(1, module.required_core.len());
    assert_eq!(Some(&"1.0.0".to_string()), module.required_core.first());

    assert_eq!(module.required_providers.len(), 1);
    let required_provider = module.provider("mycloud");
    assert!(required_provider.is_some());
    let required_provider = required_provider.unwrap();
    assert_eq!("mycorp/mycloud", required_provider.source);
    assert_eq!(1, required_provider.version_constraints.len());
    assert_eq!(
        Some(&"~> 1.0".to_string()),
        required_provider.version_constraints.first()
    );
}

#[test]
fn test_load_module_from_file_unexpected_expr() {
    let file = parsed(
        r#"terraform {
            required_version = "1.0.0"

            required_providers {
                mycloud = "test"
            }
        }"#,
    );

    let path = "test".to_string();
    let mut module = Module::new(path.clone());
    let result = load_module_from_file(&path, file, &mut module);
    assert!(matches!(
        result,
        Err(TfConfigError::UnexpectedExpr {
            attribute_key,
            expr: _,
            file_name,
        }) if attribute_key == "mycloud" && file_name == path
    ));
}

#[test]
fn test_load_module_strictness() {
    let dir = "test_load_module_not_strict";
    let entries = vec![
        DirEntry::new("version.tf".to_string(), false),
        DirEntry::new("bad.tf".to_string(), false),
    ];
    let files = || -> Vec<SourceFile> {
        order_files(&entries)
            .iter()
            .map(|name| {
                let text: &str = if name == "bad.tf" { "asdsadsadsad" } else { VERSION_TF };
                source(dir, name, text.as_bytes())
            })
            .collect()
    };
    let module = load_module_from_files(dir.to_string(), files(), false).unwrap();

    assert_eq!(1, module.required_core.len());
    assert_eq!("1.0.0", module.required_core[0]);

    assert_eq!(1, module.required_providers.len());
    let required_provider = module.provider("mycloud");
    assert!(required_provider.is_some());
    let required_provider = required_provider.unwrap();
    assert_eq!("mycorp/mycloud", required_provider.source);
    assert_eq!(1, required_provider.version_constraints.len());
    assert_eq!(
        Some(&"~> 1.0".to_string()),
        required_provider.version_constraints.first()
    );

    let res = load_module_from_files(dir.to_string(), files(), true);
    assert!(matches!(res, Err(TfConfigError::Parse(_))));
}

#[test]
fn test_load_module_read_to_string_fail_not_strict() {
    let dir = "test_load_module_read_to_string_fail";
    let files = vec![source(dir, "version.tf", &[0xC3])];
    assert!(load_module_from_files(dir.to_string(), files, false).is_ok());
}

#[test]
fn test_load_module_read_to_string_fail_strict() {
    let dir = "test_load_module_read_to_string_fail";
    let files = vec![source(dir, "version.tf", &[0xC3])];
    let res = load_module_from_files(dir.to_string(), files, true);
    assert!(matches!(res, Err(TfConfigError::Io(_))));
}

#[test]
fn core_constraints_follow_file_then_declaration_order() {
    let files = vec![
        source("m", "a.tf", b"terraform {\n required_version = \">= 1.0\"\n}\nterraform {\n required_version = \"< 2.0\"\n}"),
        source("m", "b.tf", b"locals {\n required_version = \"9\"\n}"),
        source("m", "c.tf", b"terraform {\n required_version = \"1.5.0\"\n}"),
    ];
    let module = load_module_from_files("m".to_string(), files, true).unwrap();
    assert_eq!(module.required_core, vec![">= 1.0".to_string(), "< 2.0".to_string(), "1.5.0".to_string()]);
    assert_eq!(module.path, "m");
}

#[test]
fn override_files_are_read_after_primary_files() {
    let entries = vec![
        DirEntry::new("override.tf".to_string(), false),
        DirEntry::new("main.tf".to_string(), false),
        DirEntry::new("net_override.tf".to_string(), false),
        DirEntry::new("variables.tf".to_string(), false),
    ];
    assert_eq!(
        order_files(&entries),
        vec!["main.tf", "variables.tf", "override.tf", "net_override.tf"]
    );
}

#[test]
fn discovery_skips_directories_and_editor_artifacts() {
    let entries = vec![
        DirEntry::new("modules.tf".to_string(), true),
        DirEntry::new("README".to_string(), false),
        DirEntry::new(".hidden".to_string(), false),
        DirEntry::new("main.tf~".to_string(), false),
        DirEntry::new("main.#tf".to_string(), false),
        DirEntry::new("main.tf#".to_string(), false),
        DirEntry::new("main..tf".to_string(), false),
        DirEntry::new("..".to_string(), false),
        DirEntry::new("main.tf".to_string(), false),
        DirEntry::new("notes.".to_string(), false),
    ];
    assert_eq!(order_files(&entries), vec!["main..tf", "main.tf", "notes."]);
    assert!(order_files(&vec![]).is_empty());
}

#[test]
fn same_source_in_two_files_merges_constraints() {
    let a = providers_block(r#"mycloud = { source = "mycorp/mycloud", version = "~> 1.0" }"#);
    let b = providers_block(r#"mycloud = { source = "mycorp/mycloud", version = ">= 1.2" }"#);
    let files = vec![source("m", "a.tf", a.as_bytes()), source("m", "b.tf", b.as_bytes())];
    let module = load_module_from_files("m".to_string(), files, true).unwrap();
    assert_eq!(module.required_providers.len(), 1);
    let p = module.provider("mycloud").unwrap();
    assert_eq!(p.source, "mycorp/mycloud");
    assert_eq!(p.version_constraints, vec!["~> 1.0".to_string(), ">= 1.2".to_string()]);
    assert!(p.configuration_aliases.is_empty());
}

#[test]
fn different_sources_in_two_files_conflict() {
    let a = providers_block(r#"mycloud = { source = "mycorp/mycloud" }"#);
    let b = providers_block(r#"mycloud = { source = "othercorp/mycloud" }"#);
    let files = vec![source("m", "a.tf", a.as_bytes()), source("m", "b.tf", b.as_bytes())];
    let res = load_module_from_files("m".to_string(), files, false);
    assert!(matches!(
        res,
        Err(TfConfigError::ConflictingSource { provider, existing, found })
            if provider == "mycloud" && existing == "mycorp/mycloud" && found == "othercorp/mycloud"
    ));
}

#[test]
fn first_non_empty_source_is_kept() {
    let a = providers_block(r#"mycloud = { version = "1.0" }"#);
    let b = providers_block(r#"mycloud = { source = "mycorp/mycloud" }"#);
    let c = providers_block(r#"mycloud = { version = "2.0" }"#);
    let files = vec![
        source("m", "a.tf", a.as_bytes()),
        source("m", "b.tf", b.as_bytes()),
        source("m", "c.tf", c.as_bytes()),
    ];
    let module = load_module_from_files("m".to_string(), files, true).unwrap();
    let p = module.provider("mycloud").unwrap();
    assert_eq!(p.source, "mycorp/mycloud");
    assert_eq!(p.version_constraints, vec!["1.0".to_string(), "2.0".to_string()]);
}

#[test]
fn plain_string_provider_names_key_and_file() {
    let a = providers_block(r#"mycloud = "mycorp/mycloud""#);
    let files = vec![source("m", "a.tf", a.as_bytes())];
    let res = load_module_from_files("m".to_string(), files, false);
    assert!(matches!(
        res,
        Err(TfConfigError::UnexpectedExpr { attribute_key, expr, file_name })
            if attribute_key == "mycloud" && file_name == "m/a.tf" && expr.object.is_none()
    ));
}

#[test]
fn lenient_load_ignores_a_broken_file() {
    let good = VERSION_TF.as_bytes();
    let with_broken = vec![
        source("m", "a.tf", good),
        source("m", "b.tf", b"terraform {"),
        source("m", "c.tf", b"terraform {\n required_version = \"2\"\n}"),
    ];
    let without = vec![
        source("m", "a.tf", good),
        source("m", "c.tf", b"terraform {\n required_version = \"2\"\n}"),
    ];
    let m1 = load_module_from_files("m".to_string(), with_broken, false).unwrap();
    let m2 = load_module_from_files("m".to_string(), without, false).unwrap();
    assert_eq!(m1.required_core, m2.required_core);
    assert_eq!(m1.required_core, vec!["1.0.0".to_string(), "2".to_string()]);
    assert_eq!(m1.required_providers.len(), m2.required_providers.len());
}

#[test]
fn other_parser_failures_are_always_fatal() {
    let files = vec![
        source("m", "a.tf", VERSION_TF.as_bytes()),
        SourceFile::new("m/b.tf".to_string(), FileContents::Failed("boom".to_string())),
    ];
    let res = load_module_from_files("m".to_string(), files, false);
    assert!(matches!(res, Err(TfConfigError::Other(m)) if m == "boom"));
}

#[test]
fn quoted_object_keys_are_not_fields() {
    let a = providers_block(r#"mycloud = { "source" = "mycorp/mycloud", version = "1" }"#);
    let module =
        load_module_from_files("m".to_string(), vec![source("m", "a.tf", a.as_bytes())], true).unwrap();
    let p = module.provider("mycloud").unwrap();
    assert_eq!(p.source, "");
    assert_eq!(p.version_constraints, vec!["1".to_string()]);
}

#[test]
fn quotes_are_removed_from_constraints() {
    let file = parsed("terraform {\n required_version = \"~> 0.14\"\n}");
    let mut module = Module::new("m".to_string());
    load_module_from_file(&"m/a.tf".to_string(), file, &mut module).unwrap();
    assert_eq!(module.required_core, vec!["~> 0.14".to_string()]);
    assert!(module.provider("absent").is_none());
}

#[test]
fn constructors_keep_their_arguments() {
    let r = tfconfig::ProviderRef::new("aws".to_string(), "east".to_string());
    assert_eq!(r.name, "aws");
    assert_eq!(r.alias, "east");
    let p = tfconfig::ProviderRequirement::new("hashicorp/aws".to_string(), vec!["1".to_string()]);
    assert_eq!(p.source, "hashicorp/aws");
    assert_eq!(p.version_constraints, vec!["1".to_string()]);
    assert!(p.configuration_aliases.is_empty());
    let m = Module::new("dir".to_string());
    assert_eq!(m.path, "dir");
    assert!(m.required_core.is_empty() && m.required_providers.is_empty());
}
