//! The generator: owns the metadata record, the catalog and the
//! template registry, runs the dialogue state machine over them, and
//! turns the finished metadata into the files to be written.

use vstd::pervasive::unreached;
use vstd::prelude::*;

use crate::catalog::{
    lemma_filter_empty, lemma_filter_one, models, parse_catalog_spec, Category, LibModel,
    Libraries, Library, CATALOG_DOC,
};
use crate::dialogue::{event_fits, DialogueEvent, DialogueState};
use crate::errors::CreateCliError;
use crate::templating::{
    join_path, lemma_render_total, parent_for, template_wf, RenderedFile, Templating,
    CARGO_TOML_TPL, MAIN_RS_TPL,
};
use crate::text::all_ws;

verus! {

/// Everything learned during the dialogue; handed to the templates.
#[derive(Debug)]
pub struct Metadata {
    /// Name of the project; non-empty once the dialogue has run.
    pub name: String,
    /// Short free-form description; may be empty.
    pub description: String,
    /// Whether the user accepted the curators' defaults.
    pub use_defaults: bool,
    /// The chosen argument-parsing library.
    pub lib_argparsing: Option<Library>,
}

/// The mathematical shadow of a `Metadata`.
#[verifier::ext_equal]
pub struct MetaModel {
    pub name: Seq<char>,
    pub description: Seq<char>,
    pub use_defaults: bool,
    pub lib_argparsing: Option<LibModel>,
}

impl View for Metadata {
    type V = MetaModel;

    open spec fn view(&self) -> MetaModel {
        MetaModel {
            name: self.name@,
            description: self.description@,
            use_defaults: self.use_defaults,
            lib_argparsing: match self.lib_argparsing {
                Some(l) => Some(l@),
                None => None,
            },
        }
    }
}

/// The empty record every dialogue starts from.
pub open spec fn empty_metadata() -> MetaModel {
    MetaModel {
        name: Seq::empty(),
        description: Seq::empty(),
        use_defaults: false,
        lib_argparsing: None,
    }
}

impl Default for Metadata {
    /// The record with nothing learned yet.
    fn default() -> (r: Metadata)
        ensures
            r@ == empty_metadata(),
    {
        let r = Metadata {
            name: String::new(),
            description: String::new(),
            use_defaults: false,
            lib_argparsing: None,
        };
        proof {
            assert(r@ =~= empty_metadata());
        }
        r
    }
}

/// The generator: metadata under construction, the immutable catalog,
/// the template registry, and the output path once it is resolved.
pub struct Generate {
    pub metadata: Metadata,
    pub libraries: Libraries,
    pub templating: Templating,
    pub base_path: Option<String>,
}

/// The output path as a sequence, if one is set.
pub open spec fn base_model(g: Generate) -> Option<Seq<char>> {
    match g.base_path {
        Some(p) => Some(p@),
        None => None,
    }
}

/// The predicate a selection menu selects by: right category, and
/// eligible for this scaffolder.
pub open spec fn offered(c: Category) -> spec_fn(LibModel) -> bool {
    |m: LibModel| m.category == c && m.create_cli
}

/// A valid argument-parsing choice is recorded.
pub open spec fn chosen_ok(g: Generate) -> bool {
    match g.metadata@.lib_argparsing {
        Some(l) => l.create_cli && l.category == Category::ArgParsing,
        None => false,
    }
}

/// What each dialogue state guarantees about the generator once the
/// machine has reached it.
pub open spec fn dialogue_inv(g: Generate, s: DialogueState) -> bool {
    match s {
        DialogueState::AskName => true,
        DialogueState::AskDescription => !all_ws(g.metadata@.name),
        DialogueState::AskUseDefaults => !all_ws(g.metadata@.name),
        DialogueState::AskArgParsing => !all_ws(g.metadata@.name),
        DialogueState::ResolveOutputPath => !all_ws(g.metadata@.name) && chosen_ok(g),
        DialogueState::Done => !all_ws(g.metadata@.name) && chosen_ok(g) && base_model(g) is Some,
    }
}

impl Generate {
    /// Catalog and registry are sound.
    pub open spec fn wf(&self) -> bool {
        self.libraries.wf() && self.templating.wf()
    }

    /// The menu a category's selection step offers.
    pub open spec fn menu_model(&self, c: Category) -> Seq<LibModel> {
        self.libraries.model().filter(offered(c))
    }

    /// Construct a generator: empty metadata, the embedded catalog, the
    /// fixed template registry, and the caller's output path if any.
    pub fn new_with_args(path: Option<String>) -> (r: Result<Generate, CreateCliError>)
        ensures
            r is Ok <==> parse_catalog_spec(CATALOG_DOC@) is Some && template_wf(CARGO_TOML_TPL@)
                && template_wf(MAIN_RS_TPL@),
            match r {
                Ok(g) => {
                    &&& g.wf()
                    &&& g.metadata@ == empty_metadata()
                    &&& parse_catalog_spec(CATALOG_DOC@) == Some(g.libraries.model())
                    &&& g.base_path == path
                },
                Err(e) => {
                    ||| (e == CreateCliError::CatalogLoad && parse_catalog_spec(CATALOG_DOC@)
                        is None)
                    ||| (e == CreateCliError::TemplateParse && parse_catalog_spec(CATALOG_DOC@)
                        is Some)
                },
            },
    {
        let libraries = match Libraries::new() {
            Ok(l) => l,
            Err(e) => {
                return Err(e);
            },
        };
        let templating = match Templating::new() {
            Ok(t) => t,
            Err(e) => {
                return Err(e);
            },
        };
        Ok(Generate { metadata: Metadata::default(), libraries, templating, base_path: path })
    }

    /// The libraries a category's selection menu displays, in catalog
    /// order.
    pub fn selection_menu(&self, category: Category) -> (r: Vec<Library>)
        ensures
            models(r@) == self.menu_model(category),
    {
        let mut r: Vec<Library> = Vec::new();
        let n = self.libraries.list.len();
        proof {
            assert(models(self.libraries.list@.take(0)) =~= Seq::<LibModel>::empty());
            lemma_filter_empty(offered(category));
            assert(models(r@) =~= Seq::<LibModel>::empty());
        }
        let mut i: usize = 0;
        while i < n
            invariant
                i <= n,
                n == self.libraries.list.len(),
                models(r@) == models(self.libraries.list@.take(i as int)).filter(
                    offered(category),
                ),
            decreases n - i,
        {
            proof {
                let s = models(self.libraries.list@.take(i as int));
                let x = self.libraries.list@[i as int]@;
                assert(models(self.libraries.list@.take(i as int + 1)) =~= s + seq![x]);
                Seq::filter_distributes_over_add(s, seq![x], offered(category));
                lemma_filter_one(x, offered(category));
            }
            let lib = &self.libraries.list[i];
            if lib.category == category && lib.create_cli {
                let ghost pre = models(r@);
                r.push(lib.clone());
                proof {
                    assert(models(r@) =~= pre + seq![self.libraries.list@[i as int]@]);
                }
            }
            i = i + 1;
        }
        proof {
            assert(self.libraries.list@.take(n as int) =~= self.libraries.list@);
        }
        r
    }

    /// Resolve the index the user picked back to the library the menu
    /// displayed at that position.
    pub fn libs_single_select(&self, category: Category, index: usize) -> (r: Option<Library>)
        ensures
            match r {
                Some(lib) => (index as int) < self.menu_model(category).len() && lib@
                    == self.menu_model(category)[index as int],
                None => (index as int) >= self.menu_model(category).len(),
            },
    {
        let menu = self.selection_menu(category);
        if index < menu.len() {
            Some(menu[index].clone())
        } else {
            None
        }
    }

    /// One step of the dialogue: consume the event the current state
    /// asks for, record what it teaches, and move to the next state.
    /// A blank project name re-asks; the output path keeps a caller-
    /// supplied value and otherwise derives from the project name.
    pub fn dialogue_step(&mut self, state: DialogueState, event: DialogueEvent) -> (next:
        DialogueState)
        requires
            old(self).wf(),
            dialogue_inv(*old(self), state),
            event_fits(state, event),
            event matches DialogueEvent::Selection(i) ==> (i as int) < old(self).menu_model(
                Category::ArgParsing,
            ).len(),
        ensures
            final(self).wf(),
            dialogue_inv(*final(self), next),
            final(self).libraries == old(self).libraries,
            final(self).templating == old(self).templating,
            (match (state, event) {
                (DialogueState::AskName, DialogueEvent::Text(t)) => if all_ws(t@) {
                    next is AskName && *final(self) == *old(self)
                } else {
                    next is AskDescription && final(self).metadata@ == (MetaModel {
                        name: t@,
                        ..old(self).metadata@
                    }) && final(self).base_path == old(self).base_path
                },
                (DialogueState::AskDescription, DialogueEvent::Text(t)) => next is AskUseDefaults
                    && final(self).metadata@ == (MetaModel {
                    description: t@,
                    ..old(self).metadata@
                }) && final(self).base_path == old(self).base_path,
                (DialogueState::AskUseDefaults, DialogueEvent::Confirm(b)) => next is AskArgParsing
                    && final(self).metadata@ == (MetaModel {
                    use_defaults: b,
                    ..old(self).metadata@
                }) && final(self).base_path == old(self).base_path,
                (DialogueState::AskArgParsing, DialogueEvent::Selection(i)) => next
                    is ResolveOutputPath && final(self).metadata@ == (MetaModel {
                    lib_argparsing: Some(old(self).menu_model(Category::ArgParsing)[i as int]),
                    ..old(self).metadata@
                }) && final(self).base_path == old(self).base_path,
                (DialogueState::ResolveOutputPath, DialogueEvent::Proceed) => next is Done
                    && final(self).metadata@ == old(self).metadata@ && (match base_model(
                    *old(self),
                ) {
                    Some(p) => base_model(*final(self)) == Some(p),
                    None => base_model(*final(self)) == Some("./"@ + old(self).metadata@.name),
                }),
                _ => true,
            }),
    {
        match state {
            DialogueState::AskName => match event {
                DialogueEvent::Text(t) => {
                    if crate::text::is_blank(t.as_str()) {
                        DialogueState::AskName
                    } else {
                        self.metadata.name = t;
                        DialogueState::AskDescription
                    }
                },
                _ => unreached(),
            },
            DialogueState::AskDescription => match event {
                DialogueEvent::Text(t) => {
                    self.metadata.description = t;
                    DialogueState::AskUseDefaults
                },
                _ => unreached(),
            },
            DialogueState::AskUseDefaults => match event {
                DialogueEvent::Confirm(b) => {
                    self.metadata.use_defaults = b;
                    DialogueState::AskArgParsing
                },
                _ => unreached(),
            },
            DialogueState::AskArgParsing => match event {
                DialogueEvent::Selection(i) => {
                    proof {
                        Seq::lemma_filter_pred(
                            self.libraries.model(),
                            offered(Category::ArgParsing),
                            i as int,
                        );
                    }
                    match self.libs_single_select(Category::ArgParsing, i) {
                        Some(lib) => {
                            self.metadata.lib_argparsing = Some(lib);
                            DialogueState::ResolveOutputPath
                        },
                        None => unreached(),
                    }
                },
                _ => unreached(),
            },
            DialogueState::ResolveOutputPath => {
                if self.base_path.is_none() {
                    let mut p = "./".to_owned();
                    p.append(self.metadata.name.as_str());
                    self.base_path = Some(p);
                }
                DialogueState::Done
            },
            DialogueState::Done => unreached(),
        }
    }

    /// The files a finished dialogue materializes: each registered
    /// template rendered, with its destination under the output path.
    pub fn render_outputs(&self) -> (r: Vec<RenderedFile>)
        requires
            self.wf(),
            base_model(*self) is Some,
            self.metadata@.name.len() > 0,
            self.metadata@.lib_argparsing is Some,
        ensures
            r@.len() == 2,
            self.templating.render_result("Cargo.toml"@, self.metadata@) == Some(r@[0].content@),
            self.templating.render_result("main.rs"@, self.metadata@) == Some(r@[1].content@),
            r@[0].path@ == join_path(base_model(*self)->Some_0, "Cargo.toml"@),
            r@[0].parent@ == parent_for(base_model(*self)->Some_0, "Cargo.toml"@),
            r@[1].path@ == join_path(base_model(*self)->Some_0, "src/main.rs"@),
            r@[1].parent@ == parent_for(base_model(*self)->Some_0, "src/main.rs"@),
    {
        proof {
            reveal_strlit("Cargo.toml");
            reveal_strlit("main.rs");
        }
        let base: &String = match &self.base_path {
            Some(p) => p,
            None => unreached(),
        };
        let f0 = match self.templating.render_to("Cargo.toml", &self.metadata, base.as_str()) {
            Ok(f) => f,
            Err(_) => {
                proof {
                    lemma_render_total(self.templating, "Cargo.toml"@, self.metadata@);
                }
                unreached()
            },
        };
        let f1 = match self.templating.render_to("main.rs", &self.metadata, base.as_str()) {
            Ok(f) => f,
            Err(_) => {
                proof {
                    lemma_render_total(self.templating, "main.rs"@, self.metadata@);
                }
                unreached()
            },
        };
        let mut r: Vec<RenderedFile> = Vec::new();
        r.push(f0);
        r.push(f1);
        r
    }
}

/// Law: when the dialogue reaches its final state, the project name is
/// non-empty, an argument-parsing library is chosen, and the output
/// path is resolved.
pub proof fn lemma_dialogue_done(g: Generate, s: DialogueState)
    requires
        dialogue_inv(g, s),
        s is Done,
    ensures
        g.metadata@.name.len() > 0,
        g.metadata@.lib_argparsing is Some,
        base_model(g) is Some,
{
    if g.metadata@.name.len() == 0 {
        assert(all_ws(g.metadata@.name));
    }
}

/// Law: every library a selection menu offers is eligible for this
/// scaffolder and belongs to the queried category.
pub proof fn lemma_menu_offers_eligible(g: Generate, c: Category, i: int)
    requires
        0 <= i < g.menu_model(c).len(),
    ensures
        g.menu_model(c)[i].create_cli,
        g.menu_model(c)[i].category == c,
{
    Seq::lemma_filter_pred(g.libraries.model(), offered(c), i);
}

/// Law: a library that is not eligible for this scaffolder is never
/// offered, in any category's selection menu.
pub proof fn lemma_ineligible_never_offered(g: Generate, c: Category, m: LibModel)
    requires
        !m.create_cli,
    ensures
        !g.menu_model(c).contains(m),
{
    if g.menu_model(c).contains(m) {
        let k = choose|k: int| 0 <= k < g.menu_model(c).len() && g.menu_model(c)[k] == m;
        Seq::lemma_filter_pred(g.libraries.model(), offered(c), k);
    }
}

} // verus!
