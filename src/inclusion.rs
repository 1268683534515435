use vstd::prelude::*;

use crate::emit::{blocks_to_js, js_of};
use crate::parser::{Parser, parse_model};
use crate::paths::{extension_of, has_extension, join_path, joined, texts};
use crate::registry::{object_name_for, object_name_of};
use crate::text::{ends_with, str_ends_with};

verus! {

/// The files tried, in order, for `include(path)`: for a path with an extension,
/// the path as given, then the path under the document root; for a path without
/// one (no native module by that name), the script shims `<root>/<path>.js`,
/// `<ext>/<path>/<path>.js` and `<ext>/<path>.js`.
pub open spec fn include_candidates_of(
    path: Seq<char>,
    document_root: Seq<char>,
    extensions_dir: Seq<char>,
) -> Seq<Seq<char>> {
    if extension_of(path) is Some {
        seq![path, joined(document_root, path)]
    } else {
        let shim = path + ".js"@;
        seq![
            joined(document_root, shim),
            joined(joined(extensions_dir, path), shim),
            joined(extensions_dir, shim),
        ]
    }
}

/// The files to try, in order, for `include(path)`.
pub fn include_candidates(path: &str, document_root: &str, extensions_dir: &str) -> (r: Vec<
    String,
>)
    ensures
        texts(r@) == include_candidates_of(path@, document_root@, extensions_dir@),
{
    let mut r: Vec<String> = Vec::new();
    if has_extension(path) {
        r.push(String::from_str(path));
        r.push(join_path(document_root, path));
    } else {
        let mut shim = String::from_str(path);
        shim.append(".js");
        r.push(join_path(document_root, shim.as_str()));
        let module_dir = join_path(extensions_dir, path);
        r.push(join_path(module_dir.as_str(), shim.as_str()));
        r.push(join_path(extensions_dir, shim.as_str()));
    }
    assert(texts(r@) =~= include_candidates_of(path@, document_root@, extensions_dir@));
    r
}

/// What `include` has to do next.
pub enum IncludeStep {
    /// Make sure the native module `key` is loaded, then report whether it is
    /// with `include_after_load`.
    LoadModule(String),
    /// Install the module `key` into the context and return the global object
    /// `object_name`.
    ReturnModule { key: String, object_name: String },
    /// Read the first of these files that exists and run it (see
    /// `include_source`); when none exists, throw `include_not_found`.
    ReadFirst(Vec<String>),
}

/// The first step of `include(path)`: a path without extension names a native
/// module first; any other path is read from the files.
pub fn include_start(path: &str, document_root: &str, extensions_dir: &str) -> (r: IncludeStep)
    ensures
        extension_of(path@) is None ==> (r matches IncludeStep::LoadModule(k) && k@ == path@),
        extension_of(path@) is Some ==> (r matches IncludeStep::ReadFirst(v) && texts(v@)
            == include_candidates_of(path@, document_root@, extensions_dir@)),
{
    if has_extension(path) {
        IncludeStep::ReadFirst(include_candidates(path, document_root, extensions_dir))
    } else {
        IncludeStep::LoadModule(String::from_str(path))
    }
}

/// The step after trying to load the native module `path`: when it is loaded,
/// install it and return its object; when there is no such module, fall
/// through to the script shims.
pub fn include_after_load(
    path: &str,
    document_root: &str,
    extensions_dir: &str,
    loaded: bool,
) -> (r: IncludeStep)
    ensures
        loaded ==> (r matches IncludeStep::ReturnModule { key, object_name } && key@ == path@
            && object_name@ == object_name_of(path@)),
        !loaded ==> (r matches IncludeStep::ReadFirst(v) && texts(v@) == include_candidates_of(
            path@,
            document_root@,
            extensions_dir@,
        )),
{
    if loaded {
        IncludeStep::ReturnModule { key: String::from_str(path), object_name: object_name_for(path) }
    } else {
        IncludeStep::ReadFirst(include_candidates(path, document_root, extensions_dir))
    }
}

/// The script that `include` runs, and the resource name it runs under.
pub struct IncludeSource {
    pub source: String,
    pub resource_name: String,
}

/// How the file `resolved`, read for `include(path)`, runs: a template (`.jhp`)
/// is parsed and turned into one script; anything else (`.js`, or a script shim
/// of a path without extension) runs as it is. The resource name is the
/// resolved path.
pub fn include_source(path: &str, resolved: &str, content: &str) -> (r: IncludeSource)
    requires
        content@.len() < usize::MAX,
    ensures
        r.resource_name@ == resolved@,
        ends_with(path@, ".jhp"@) ==> r.source@ == js_of(parse_model(content@)),
        !ends_with(path@, ".jhp"@) ==> r.source@ == content@,
{
    if str_ends_with(path, ".jhp") {
        let mut p = Parser::new(content);
        let res = p.parse();
        IncludeSource { source: blocks_to_js(res.blocks), resource_name: String::from_str(resolved) }
    } else {
        IncludeSource { source: String::from_str(content), resource_name: String::from_str(resolved) }
    }
}

/// The message of the error thrown when nothing could be included.
pub fn include_not_found(path: &str) -> (r: String)
    ensures
        r@ == "include('"@ + path@ + "') read error: not found as module or file"@,
{
    let mut r = String::from_str("include('");
    r.append(path);
    r.append("') read error: not found as module or file");
    r
}

} // verus!
