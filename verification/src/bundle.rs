//! The multi-file bundler and the build target. The bundler is a state
//! machine: the caller reads and parses the files it asks for and hands each
//! program back; the bundler decides which module to load next (never a file
//! it has loaded already) and gathers every component and every package
//! import into one program.
use vstd::prelude::*;
use crate::ast::{
    components_view, imports_view, lemma_push_imports, AstNode, ComponentNode, ComponentView,
    ImportNode, ImportView, ProgramView, XeonGenerator,
};
use crate::codegen_js::{js_program, ReactJsGenerator};
use crate::codegen_wasm::{wasm_program, WasmEngineGenerator};
use crate::file_id::{contains_file, entry_key, keys_view, module_key, FileId, FileKey};
use crate::text::{push_str, string_is};

verus! {

/// Whether a module path is a local file (`./...` or `../...`) rather than a
/// package.
pub open spec fn is_local_module(m: Seq<char>) -> bool {
    ||| (m.len() >= 2 && m[0] == '.' && m[1] == '/')
    ||| (m.len() >= 3 && m[0] == '.' && m[1] == '.' && m[2] == '/')
}

/// Whether a module path names a local file.
pub fn is_local(module: &String) -> (b: bool)
    ensures
        b == is_local_module(module@),
{
    let v = crate::text::chars_of(module.as_str());
    (v.len() >= 2 && v[0] == '.' && v[1] == '/') || (v.len() >= 3 && v[0] == '.' && v[1] == '.'
        && v[2] == '/')
}

/// What the bundler asks for next.
pub enum BundleStep {
    /// Read, parse and hand back the module `module`, imported by the file `from`.
    Load { from: String, module: String },
    /// Every local module has been bundled.
    Done,
}

/// A file being worked through: where it was read from, which file it is,
/// its imports, and how many of them are done.
struct Frame {
    origin: String,
    file: FileId,
    imports: Vec<ImportNode>,
    next: usize,
}

impl Frame {
    spec fn view(&self) -> (Seq<char>, FileKey, Seq<ImportView>) {
        (
            self.origin@,
            self.file.key(),
            if self.next <= self.imports@.len() {
                imports_view(self.imports@).skip(self.next as int)
            } else {
                Seq::empty()
            },
        )
    }
}

/// The bundler: the components and package imports gathered so far, the
/// files whose imports are not yet all handled (the last is worked on
/// first), the files loaded so far, and the file asked for last.
pub struct Bundler {
    components: Vec<ComponentNode>,
    imports: Vec<ImportNode>,
    frames: Vec<Frame>,
    loaded: Vec<FileId>,
    awaiting: Option<FileId>,
}

/// Files in progress: each with its path, which file it is, and the imports
/// still to handle.
pub type Pending = Seq<(Seq<char>, FileKey, Seq<ImportView>)>;

/// Handles imports until a local one comes whose file is not among `loaded`
/// (it is the third result: the importing file's path, the module and the
/// file it names) or none are left. Package imports are gathered in order,
/// a local module whose file is already loaded is passed over, and a file
/// with no imports left is done.
pub open spec fn advance_bundle(frames: Pending, imports: Seq<ImportView>, loaded: Seq<FileKey>) -> (
    Pending,
    Seq<ImportView>,
    Option<(Seq<char>, Seq<char>, FileKey)>,
)
    decreases frames.len(), frames.last().2.len(),
{
    if frames.len() == 0 {
        (frames, imports, None)
    } else {
        let top = frames.last();
        if top.2.len() == 0 {
            advance_bundle(frames.drop_last(), imports, loaded)
        } else {
            let imp = top.2[0];
            let rest = frames.drop_last().push((top.0, top.1, top.2.drop_first()));
            if is_local_module(imp.module) {
                let file = module_key(top.1, imp.module);
                if loaded.contains(file) {
                    advance_bundle(rest, imports, loaded)
                } else {
                    (rest, imports, Some((top.0, imp.module, file)))
                }
            } else {
                advance_bundle(rest, imports.push(imp), loaded)
            }
        }
    }
}

/// A module is asked for only if its file is not loaded yet: no file is
/// bundled twice, and a cycle of imports ends.
pub proof fn law_loaded_file_not_asked_again(
    frames: Pending,
    imports: Seq<ImportView>,
    loaded: Seq<FileKey>,
)
    ensures
        match advance_bundle(frames, imports, loaded).2 {
            Some(load) => !loaded.contains(load.2),
            None => true,
        },
    decreases frames.len(), frames.last().2.len(),
{
    if frames.len() > 0 {
        let top = frames.last();
        if top.2.len() == 0 {
            law_loaded_file_not_asked_again(frames.drop_last(), imports, loaded);
        } else {
            let imp = top.2[0];
            let rest = frames.drop_last().push((top.0, top.1, top.2.drop_first()));
            if is_local_module(imp.module) {
                law_loaded_file_not_asked_again(rest, imports, loaded);
            } else {
                law_loaded_file_not_asked_again(rest, imports.push(imp), loaded);
            }
        }
    }
}

/// The file that a program handed to `absorb` comes from: the one asked for
/// last, or, when none was asked for, the entry path itself.
pub open spec fn absorbed_file(awaiting: Option<FileKey>, origin: Seq<char>) -> FileKey {
    match awaiting {
        Some(f) => f,
        None => entry_key(origin),
    }
}

impl Bundler {
    /// The components gathered so far.
    pub closed spec fn components(&self) -> Seq<ComponentView> {
        components_view(self.components@)
    }

    /// The package imports gathered so far.
    pub closed spec fn imports(&self) -> Seq<ImportView> {
        imports_view(self.imports@)
    }

    /// The files in progress.
    pub closed spec fn pending(&self) -> Pending {
        Seq::new(self.frames@.len(), |i: int| self.frames@[i].view())
    }

    /// The files loaded so far, in order.
    pub closed spec fn loaded(&self) -> Seq<FileKey> {
        keys_view(self.loaded@)
    }

    /// The file asked for last and not yet handed back.
    pub closed spec fn awaiting(&self) -> Option<FileKey> {
        match self.awaiting {
            Some(f) => Some(f.key()),
            None => None,
        }
    }

    /// An empty bundle.
    pub fn new() -> (b: Bundler)
        ensures
            b.components() == Seq::<ComponentView>::empty(),
            b.imports() == Seq::<ImportView>::empty(),
            b.pending() == Seq::<(Seq<char>, FileKey, Seq<ImportView>)>::empty(),
            b.loaded() == Seq::<FileKey>::empty(),
            b.awaiting() is None,
    {
        let b = Bundler {
            components: Vec::new(),
            imports: Vec::new(),
            frames: Vec::new(),
            loaded: Vec::new(),
            awaiting: None,
        };
        assert(b.components() =~= Seq::<ComponentView>::empty());
        assert(b.imports() =~= Seq::<ImportView>::empty());
        assert(b.pending() =~= Seq::<(Seq<char>, FileKey, Seq<ImportView>)>::empty());
        assert(b.loaded() =~= Seq::<FileKey>::empty());
        b
    }

    /// Takes in the program of the file read from `origin` (the module asked
    /// for last, or the entry file): its components join the bundle, its file
    /// counts as loaded, and its imports are handled before those of any
    /// earlier file.
    pub fn absorb(&mut self, origin: String, program: AstNode)
        ensures
            final(self).components() == old(self).components() + program@.components,
            final(self).imports() == old(self).imports(),
            final(self).pending() == old(self).pending().push(
                (origin@, absorbed_file(old(self).awaiting(), origin@), program@.imports),
            ),
            final(self).loaded() == old(self).loaded().push(
                absorbed_file(old(self).awaiting(), origin@),
            ),
            final(self).awaiting() is None,
    {
        let file = match self.awaiting.take() {
            Some(f) => f,
            None => FileId::of_entry(origin.as_str()),
        };
        let ghost before_loaded = self.loaded@;
        self.loaded.push(file.copy());
        assert(keys_view(self.loaded@) =~= keys_view(before_loaded).push(file.key()));
        match program {
            AstNode::Program { imports, mut components } => {
                let ghost before_comps = self.components@;
                let ghost added = components@;
                self.components.append(&mut components);
                assert(components_view(before_comps + added) =~= components_view(before_comps)
                    + components_view(added));
                let ghost before = self.pending();
                assert(imports_view(imports@).skip(0) =~= imports_view(imports@));
                let ghost key = file.key();
                self.frames.push(Frame { origin, file, imports, next: 0 });
                assert(self.pending() =~= before.push((origin@, key, imports_view(imports@))));
            },
        }
    }

    /// Handles imports up to the next local module whose file is not loaded
    /// yet, which it asks for, or to the end of the work, as
    /// `advance_bundle` says.
    pub fn next_step(&mut self) -> (step: BundleStep)
        ensures
            ({
                let (p, imps, load) = advance_bundle(
                    old(self).pending(),
                    old(self).imports(),
                    old(self).loaded(),
                );
                &&& final(self).pending() == p
                &&& final(self).imports() == imps
                &&& final(self).components() == old(self).components()
                &&& final(self).loaded() == old(self).loaded()
                &&& match (step, load) {
                    (BundleStep::Load { from, module }, Some((f, m, file))) => {
                        &&& from@ == f
                        &&& module@ == m
                        &&& final(self).awaiting() == Some(file)
                        &&& !old(self).loaded().contains(file)
                    },
                    (BundleStep::Done, None) => final(self).awaiting() is None,
                    _ => false,
                }
            }),
    {
        let ghost goal = advance_bundle(self.pending(), self.imports(), self.loaded());
        proof {
            law_loaded_file_not_asked_again(self.pending(), self.imports(), self.loaded());
        }
        self.awaiting = None;
        loop
            invariant
                advance_bundle(self.pending(), self.imports(), self.loaded()) == goal,
                goal == advance_bundle(old(self).pending(), old(self).imports(), old(self).loaded()),
                self.components() == old(self).components(),
                self.loaded() == old(self).loaded(),
                self.awaiting is None,
            decreases self.frames@.len(), (if self.frames@.len() > 0 {
                self.pending().last().2.len()
            } else {
                0
            }),
        {
            let ghost pend = self.pending();
            let ghost imps = self.imports();
            match self.frames.pop() {
                None => {
                    assert(pend.len() == 0);
                    return BundleStep::Done;
                },
                Some(mut top) => {
                    assert(pend.last() == top.view());
                    assert(self.pending() =~= pend.drop_last());
                    if top.next < top.imports.len() {
                        let k = top.next;
                        let ghost rest_imports = imports_view(top.imports@).skip(k as int);
                        assert(rest_imports[0] == top.imports@[k as int]@);
                        top.next = k + 1;
                        assert(imports_view(top.imports@).skip(k + 1) =~= rest_imports.drop_first());
                        let local = is_local(&top.imports[k].module);
                        if local {
                            let file = top.file.of_module(top.imports[k].module.as_str());
                            let seen = contains_file(&self.loaded, &file);
                            if seen {
                                self.frames.push(top);
                                assert(self.pending() =~= pend.drop_last().push(
                                    (pend.last().0, pend.last().1, pend.last().2.drop_first()),
                                ));
                            } else {
                                let from = top.origin.clone();
                                let module = top.imports[k].module.clone();
                                self.frames.push(top);
                                assert(self.pending() =~= pend.drop_last().push(
                                    (pend.last().0, pend.last().1, pend.last().2.drop_first()),
                                ));
                                self.awaiting = Some(file);
                                return BundleStep::Load { from, module };
                            }
                        } else {
                            let imp = top.imports[k].clone();
                            let ghost before = self.imports@;
                            self.imports.push(imp);
                            proof {
                                lemma_push_imports(before, imp);
                            }
                            self.frames.push(top);
                            assert(self.pending() =~= pend.drop_last().push(
                                (pend.last().0, pend.last().1, pend.last().2.drop_first()),
                            ));
                        }
                    } else {
                        assert(pend.last().2 =~= Seq::<ImportView>::empty());
                    }
                },
            }
        }
    }

    /// The bundled program: every component gathered, then every package import.
    pub fn finish(self) -> (ast: AstNode)
        ensures
            ast@ == (ProgramView { imports: self.imports(), components: self.components() }),
    {
        AstNode::Program { imports: self.imports, components: self.components }
    }
}

/// Whether the build target is the Wasm engine (any other target is React).
pub fn is_wasm_target(target: &str) -> (b: bool)
    ensures
        b == (target@ == "wasm"@),
{
    let t: String = target.to_owned();
    string_is(&t, "wasm")
}

/// The bundle's code for the target: the Wasm engine's for `wasm`, React's
/// for any other target.
pub fn generate_for_target(target: &str, ast: &AstNode) -> (code: String)
    ensures
        code@ == (if target@ == "wasm"@ {
            wasm_program(ast@.imports, ast@.components)
        } else {
            js_program(ast@.imports, ast@.components)
        }),
{
    let result = if is_wasm_target(target) {
        WasmEngineGenerator.generate(ast)
    } else {
        ReactJsGenerator.generate(ast)
    };
    match result {
        Ok(code) => code,
        Err(_) => String::new(),
    }
}

/// Where the bundle is written: `dist/bundle_App.rs` for `wasm`,
/// `dist/bundle_App.js` otherwise.
pub fn output_path(target: &str) -> (path: String)
    ensures
        path@ == "dist/bundle_App."@ + (if target@ == "wasm"@ {
            "rs"@
        } else {
            "js"@
        }),
{
    let mut path = String::new();
    push_str(&mut path, "dist/bundle_App.");
    if is_wasm_target(target) {
        push_str(&mut path, "rs");
    } else {
        push_str(&mut path, "js");
    }
    path
}

} // verus!
