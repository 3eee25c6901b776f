//! Loading a module from its files, in reading order, under the strictness
//! policy: unreadable and syntactically broken files end the load when
//! strict and are skipped otherwise; every other failure ends it.
use vstd::prelude::*;
use crate::document::Body;
use crate::extract::{apply_file, load_module_from_file};
use crate::module::{Error, ErrorView, Module, ModuleView};

verus! {

/// What became of one file before its declarations were read.
#[derive(Debug)]
pub enum FileContents {
    /// The file could not be read; the reason.
    Unreadable(String),
    /// The parser rejected the file's syntax; its message.
    Malformed(String),
    /// The parser failed for another reason; its message.
    Failed(String),
    /// The file's parsed contents.
    Parsed(Body),
}

/// One configuration file of a module, under the name errors report it by.
#[derive(Debug)]
pub struct SourceFile {
    pub name: String,
    pub contents: FileContents,
}

impl SourceFile {
    pub fn new(name: String, contents: FileContents) -> (r: SourceFile)
        ensures
            r.name == name,
            r.contents == contents,
    {
        SourceFile { name, contents }
    }
}

/// What one file makes of the module `m`.
pub open spec fn file_step(m: ModuleView, f: SourceFile, strict: bool) -> Result<
    ModuleView,
    ErrorView,
> {
    match f.contents {
        FileContents::Unreadable(msg) => if strict {
            Err(ErrorView::Io(msg@))
        } else {
            Ok(m)
        },
        FileContents::Malformed(msg) => if strict {
            Err(ErrorView::Parse(msg@))
        } else {
            Ok(m)
        },
        FileContents::Failed(msg) => Err(ErrorView::Other(msg@)),
        FileContents::Parsed(body) => apply_file(m, f.name@, body),
    }
}

/// The files, one after the other, from `m`; the first error ends it.
pub open spec fn load_files(m: ModuleView, files: Seq<SourceFile>, strict: bool) -> Result<
    ModuleView,
    ErrorView,
>
    decreases files.len(),
{
    if files.len() == 0 {
        Ok(m)
    } else {
        match load_files(m, files.drop_last(), strict) {
            Ok(m2) => file_step(m2, files.last(), strict),
            Err(e) => Err(e),
        }
    }
}

/// The module with no requirements, for the directory `path`.
pub open spec fn empty_module(path: Seq<char>) -> ModuleView {
    ModuleView { path, core: Seq::empty(), providers: Seq::empty() }
}

pub proof fn lemma_load_err(m: ModuleView, files: Seq<SourceFile>, strict: bool, k: int)
    requires
        0 <= k <= files.len(),
        load_files(m, files.take(k), strict) is Err,
    ensures
        load_files(m, files, strict) == load_files(m, files.take(k), strict),
    decreases files.len() - k,
{
    if k < files.len() {
        assert(files.take(k + 1).drop_last() =~= files.take(k));
        lemma_load_err(m, files, strict, k + 1);
    } else {
        assert(files.take(k) =~= files);
    }
}

/// Loads the module of the directory `path` from its files, given in
/// reading order. The result is the module that the files make, or the
/// first error among them; never a partial module.
pub fn load_module_from_files(path: String, files: Vec<SourceFile>, strict: bool) -> (r: Result<
    Module,
    Error,
>)
    ensures
        match load_files(empty_module(path@), files@, strict) {
            Ok(m) => r matches Ok(module) && module@ == m && m.wf(),
            Err(e) => r matches Err(err) && err@ == e,
        },
{
    let ghost all = files@;
    let ghost m0 = empty_module(path@);
    let n: usize = files.len();
    let mut module = Module::new(path);
    let mut rest = files;
    let mut i: usize = 0;
    assert(all.take(0) =~= Seq::<SourceFile>::empty());
    assert(all.skip(0) =~= all);
    while rest.len() > 0
        invariant
            i + rest@.len() == all.len(),
            all.len() == n,
            all == files@,
            m0 == empty_module(path@),
            rest@ == all.skip(i as int),
            load_files(m0, all.take(i as int), strict) == Ok::<ModuleView, ErrorView>(module@),
            module@.wf(),
        decreases rest@.len(),
    {
        let f = rest.remove(0);
        assert(all.take(i + 1).drop_last() =~= all.take(i as int));
        assert(all.take(i + 1).last() == all[i as int]);
        assert(rest@ =~= all.skip(i + 1));
        let failed = match f.contents {
            FileContents::Unreadable(msg) => if strict {
                Some(Error::Io(msg))
            } else {
                None
            },
            FileContents::Malformed(msg) => if strict {
                Some(Error::Parse(msg))
            } else {
                None
            },
            FileContents::Failed(msg) => Some(Error::Other(msg)),
            FileContents::Parsed(body) => match load_module_from_file(&f.name, body, &mut module) {
                Ok(()) => None,
                Err(e) => Some(e),
            },
        };
        match failed {
            Some(e) => {
                proof {
                    lemma_load_err(m0, all, strict, i + 1);
                }
                return Err(e);
            },
            None => {},
        }
        i += 1;
    }
    assert(all.take(i as int) =~= all);
    Ok(module)
}

} // verus!
