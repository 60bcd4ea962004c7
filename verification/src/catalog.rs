//! The curated library catalog: a categorized, immutable list of
//! candidate third-party libraries, parsed once at startup from an
//! embedded document.
//!
//! The document is line-based, in the canonical form the curators keep
//! it in: an entry opens with a `[[libraries]]` header and is followed
//! by `key = value` lines. Keys are `name`, `description`, `category`
//! (quoted strings) and `axo_use`, `create_cli` (bare booleans); blank
//! lines separate entries. Any other line, and any unknown key, rejects
//! the whole document. A later entry whose name matches an earlier one
//! replaces it.

use vstd::prelude::*;

use crate::errors::CreateCliError;
use crate::text::{
    all_ws, first_at, is_blank, lemma_first_at, lemma_first_at_is, split_lines, split_lines_spec,
    starts_with, str_eq, str_starts_with, views_of,
};

verus! {

/// The closed set of functional groupings a catalog entry can carry.
#[derive(Clone, Copy, Debug, PartialEq, Eq, Structural)]
pub enum Category {
    /// Argument parsing
    ArgParsing,
    /// Command generation
    CommandGen,
    /// Formatting
    Formatting,
    /// Structured output
    StructOutput,
    /// Errors, logging, diagnostics
    ErrLogDiag,
    /// Interactivity
    Interactivity,
    /// Testing
    Testing,
    /// Everything else
    Other,
}

/// The category a label denotes, if any.
pub open spec fn label_category(s: Seq<char>) -> Option<Category> {
    if s == "argparsing"@ {
        Some(Category::ArgParsing)
    } else if s == "commandgen"@ {
        Some(Category::CommandGen)
    } else if s == "formatting"@ {
        Some(Category::Formatting)
    } else if s == "structoutput"@ {
        Some(Category::StructOutput)
    } else if s == "errlogdiag"@ {
        Some(Category::ErrLogDiag)
    } else if s == "interactivity"@ {
        Some(Category::Interactivity)
    } else if s == "testing"@ {
        Some(Category::Testing)
    } else if s == "other"@ {
        Some(Category::Other)
    } else {
        None
    }
}

/// Resolve a label to its category.
pub fn category_of_label(s: &str) -> (r: Option<Category>)
    ensures
        r == label_category(s@),
{
    if str_eq(s, "argparsing") {
        Some(Category::ArgParsing)
    } else if str_eq(s, "commandgen") {
        Some(Category::CommandGen)
    } else if str_eq(s, "formatting") {
        Some(Category::Formatting)
    } else if str_eq(s, "structoutput") {
        Some(Category::StructOutput)
    } else if str_eq(s, "errlogdiag") {
        Some(Category::ErrLogDiag)
    } else if str_eq(s, "interactivity") {
        Some(Category::Interactivity)
    } else if str_eq(s, "testing") {
        Some(Category::Testing)
    } else if str_eq(s, "other") {
        Some(Category::Other)
    } else {
        None
    }
}

/// One catalog entry: a third-party library this scaffolder may offer.
#[derive(Debug)]
pub struct Library {
    /// Short identifier, unique across the catalog.
    pub name: String,
    /// Optional human-readable blurb.
    pub description: Option<String>,
    /// Curator preference, reserved; the dialogue does not consult it.
    pub axo_use: bool,
    /// Whether this library may be offered by this scaffolder.
    pub create_cli: bool,
    /// The functional grouping the entry belongs to.
    pub category: Category,
}

/// The mathematical shadow of a `Library`: its strings as sequences.
#[verifier::ext_equal]
pub struct LibModel {
    pub name: Seq<char>,
    pub description: Option<Seq<char>>,
    pub axo_use: bool,
    pub create_cli: bool,
    pub category: Category,
}

impl View for Library {
    type V = LibModel;

    open spec fn view(&self) -> LibModel {
        LibModel {
            name: self.name@,
            description: match self.description {
                Some(d) => Some(d@),
                None => None,
            },
            axo_use: self.axo_use,
            create_cli: self.create_cli,
            category: self.category,
        }
    }
}

impl Clone for Library {
    /// A clone denotes the same model.
    fn clone(&self) -> (r: Self)
        ensures
            r@ == self@,
    {
        let r = Library {
            name: self.name.clone(),
            description: match &self.description {
                Some(d) => Some(d.clone()),
                None => None,
            },
            axo_use: self.axo_use,
            create_cli: self.create_cli,
            category: self.category,
        };
        proof {
            assert(r@ =~= self@);
        }
        r
    }
}

/// The models of a sequence of libraries.
pub open spec fn models(s: Seq<Library>) -> Seq<LibModel> {
    s.map_values(|l: Library| l@)
}

/// No two entries share a name.
pub open spec fn names_unique(s: Seq<LibModel>) -> bool {
    forall|i: int, j: int| 0 <= i < j < s.len() ==> s[i].name != s[j].name
}

/// A partially assembled entry, between its header and the next one.
struct EntryDraft {
    name: Option<String>,
    description: Option<String>,
    axo_use: bool,
    create_cli: bool,
    category: Option<Category>,
}

/// The mathematical shadow of an `EntryDraft`.
#[verifier::ext_equal]
pub struct DraftModel {
    pub name: Option<Seq<char>>,
    pub description: Option<Seq<char>>,
    pub axo_use: bool,
    pub create_cli: bool,
    pub category: Option<Category>,
}

impl View for EntryDraft {
    type V = DraftModel;

    closed spec fn view(&self) -> DraftModel {
        DraftModel {
            name: match self.name {
                Some(n) => Some(n@),
                None => None,
            },
            description: match self.description {
                Some(d) => Some(d@),
                None => None,
            },
            axo_use: self.axo_use,
            create_cli: self.create_cli,
            category: self.category,
        }
    }
}

/// A draft with every field still at its default.
pub open spec fn empty_draft() -> DraftModel {
    DraftModel { name: None, description: None, axo_use: false, create_cli: false, category: None }
}

/// The state of the document walk: failed, or a committed prefix plus
/// the entry currently being assembled.
#[verifier::ext_equal]
pub enum ParseSt {
    Bad,
    Good { libs: Seq<LibModel>, cur: Option<DraftModel> },
}

/// A quoted string without inner quotes or backslashes; anything else
/// is rejected.
pub open spec fn parse_quoted(v: Seq<char>) -> Option<Seq<char>> {
    if v.len() >= 2 && v[0] == '"' && v[v.len() - 1] == '"' && (forall|k: int|
        1 <= k < v.len() - 1 ==> v[k] != '"' && v[k] != '\\') {
        Some(v.subrange(1, v.len() - 1))
    } else {
        None
    }
}

/// A bare boolean literal.
pub open spec fn parse_bool_lit(v: Seq<char>) -> Option<bool> {
    if v == "true"@ {
        Some(true)
    } else if v == "false"@ {
        Some(false)
    } else {
        None
    }
}

/// One `key = value` line applied to the open draft; `None` rejects the
/// document (unknown key or malformed value).
pub open spec fn step_kv(d: DraftModel, l: Seq<char>) -> Option<DraftModel> {
    if starts_with(l, "name = "@) {
        match parse_quoted(l.skip("name = "@.len() as int)) {
            Some(v) => Some(DraftModel { name: Some(v), ..d }),
            None => None,
        }
    } else if starts_with(l, "description = "@) {
        match parse_quoted(l.skip("description = "@.len() as int)) {
            Some(v) => Some(DraftModel { description: Some(v), ..d }),
            None => None,
        }
    } else if starts_with(l, "axo_use = "@) {
        match parse_bool_lit(l.skip("axo_use = "@.len() as int)) {
            Some(b) => Some(DraftModel { axo_use: b, ..d }),
            None => None,
        }
    } else if starts_with(l, "create_cli = "@) {
        match parse_bool_lit(l.skip("create_cli = "@.len() as int)) {
            Some(b) => Some(DraftModel { create_cli: b, ..d }),
            None => None,
        }
    } else if starts_with(l, "category = "@) {
        match parse_quoted(l.skip("category = "@.len() as int)) {
            Some(v) => match label_category(v) {
                Some(c) => Some(DraftModel { category: Some(c), ..d }),
                None => None,
            },
            None => None,
        }
    } else {
        None
    }
}

/// Add `m` to the committed entries: a later entry replaces an earlier
/// one of the same name, anything else is appended.
pub open spec fn insert_lib(s: Seq<LibModel>, m: LibModel) -> Seq<LibModel>
    decreases s.len(),
{
    if s.len() == 0 {
        seq![m]
    } else if s[0].name == m.name {
        seq![m] + s.drop_first()
    } else {
        seq![s[0]] + insert_lib(s.drop_first(), m)
    }
}

/// Close the open draft: it must at least carry a name and a category.
pub open spec fn commit_draft(libs: Seq<LibModel>, d: DraftModel) -> Option<Seq<LibModel>> {
    match (d.name, d.category) {
        (Some(n), Some(c)) => Some(
            insert_lib(
                libs,
                LibModel {
                    name: n,
                    description: d.description,
                    axo_use: d.axo_use,
                    create_cli: d.create_cli,
                    category: c,
                },
            ),
        ),
        _ => None,
    }
}

/// One document line applied to a good state.
pub open spec fn step_line(libs: Seq<LibModel>, cur: Option<DraftModel>, l: Seq<char>) -> ParseSt {
    if all_ws(l) {
        ParseSt::Good { libs, cur }
    } else if l == "[[libraries]]"@ {
        match cur {
            None => ParseSt::Good { libs, cur: Some(empty_draft()) },
            Some(d) => match commit_draft(libs, d) {
                Some(libs2) => ParseSt::Good { libs: libs2, cur: Some(empty_draft()) },
                None => ParseSt::Bad,
            },
        }
    } else {
        match cur {
            None => ParseSt::Bad,
            Some(d) => match step_kv(d, l) {
                Some(d2) => ParseSt::Good { libs, cur: Some(d2) },
                None => ParseSt::Bad,
            },
        }
    }
}

/// The first `n` lines of the document, folded.
pub open spec fn run_lines(lines: Seq<Seq<char>>, n: int) -> ParseSt
    decreases n,
{
    if n <= 0 {
        ParseSt::Good { libs: Seq::empty(), cur: None }
    } else {
        match run_lines(lines, n - 1) {
            ParseSt::Bad => ParseSt::Bad,
            ParseSt::Good { libs, cur } => step_line(libs, cur, lines[n - 1]),
        }
    }
}

/// Close the walk: commit a still-open draft, or take the entries as
/// they stand.
pub open spec fn finish_parse(st: ParseSt) -> Option<Seq<LibModel>> {
    match st {
        ParseSt::Bad => None,
        ParseSt::Good { libs, cur } => match cur {
            None => Some(libs),
            Some(d) => commit_draft(libs, d),
        },
    }
}

/// What a whole catalog document denotes: the committed entries, or
/// nothing if any line rejects it.
pub open spec fn parse_catalog_spec(doc: Seq<char>) -> Option<Seq<LibModel>> {
    let lines = split_lines_spec(doc);
    finish_parse(run_lines(lines, lines.len() as int))
}

/// A failed walk never recovers.
proof fn lemma_run_bad(lines: Seq<Seq<char>>, i: int, n: int)
    requires
        0 <= i <= n,
        run_lines(lines, i) is Bad,
    ensures
        run_lines(lines, n) is Bad,
    decreases n - i,
{
    if i < n {
        lemma_run_bad(lines, i, n - 1);
    }
}

/// Every name in `insert_lib(s, m)` is `m`'s name or one already in `s`.
proof fn lemma_insert_names(s: Seq<LibModel>, m: LibModel, k: int)
    requires
        0 <= k < insert_lib(s, m).len(),
    ensures
        insert_lib(s, m)[k].name == m.name || (exists|j: int|
            0 <= j < s.len() && s[j].name == insert_lib(s, m)[k].name),
    decreases s.len(),
{
    let out = insert_lib(s, m);
    if s.len() == 0 {
    } else if s[0].name == m.name {
        if k >= 1 {
            assert(out[k] == s.drop_first()[k - 1]);
            assert(s[k] == s.drop_first()[k - 1]);
        }
    } else {
        if k == 0 {
            assert(out[0] == s[0]);
        } else {
            lemma_insert_names(s.drop_first(), m, k - 1);
            assert(out[k] == insert_lib(s.drop_first(), m)[k - 1]);
            if insert_lib(s.drop_first(), m)[k - 1].name != m.name {
                let j = choose|j: int|
                    0 <= j < s.drop_first().len() && s.drop_first()[j].name == insert_lib(
                        s.drop_first(),
                        m,
                    )[k - 1].name;
                assert(s[j + 1] == s.drop_first()[j]);
            }
        }
    }
}

/// Replacement keeps names unique.
proof fn lemma_insert_unique(s: Seq<LibModel>, m: LibModel)
    requires
        names_unique(s),
    ensures
        names_unique(insert_lib(s, m)),
    decreases s.len(),
{
    let out = insert_lib(s, m);
    if s.len() == 0 {
    } else if s[0].name == m.name {
        assert forall|i: int, j: int| 0 <= i < j < out.len() implies out[i].name != out[j].name by {
            if i >= 1 {
                assert(out[i] == s[i]);
            }
            assert(out[j] == s[j]);
        }
    } else {
        assert forall|k: int| 0 <= k < s.drop_first().len() && 0 <= k implies (
        #[trigger] s.drop_first()[k]).name != s[0].name by {
            assert(s.drop_first()[k] == s[k + 1]);
        }
        lemma_insert_unique(s.drop_first(), m);
        let tail = insert_lib(s.drop_first(), m);
        assert forall|i: int, j: int| 0 <= i < j < out.len() implies out[i].name != out[j].name by {
            if i == 0 {
                assert(out[j] == tail[j - 1]);
                lemma_insert_names(s.drop_first(), m, j - 1);
                if tail[j - 1].name != m.name {
                    let t = choose|t: int|
                        0 <= t < s.drop_first().len() && s.drop_first()[t].name == tail[j - 1].name;
                    assert(s[t + 1] == s.drop_first()[t]);
                }
            } else {
                assert(out[i] == tail[i - 1]);
                assert(out[j] == tail[j - 1]);
            }
        }
    }
}

/// Skipping a prefix without the inserted name commutes with insertion.
proof fn lemma_insert_skip(s: Seq<LibModel>, m: LibModel, j: int)
    requires
        0 <= j <= s.len(),
        forall|k: int| 0 <= k < j ==> s[k].name != m.name,
    ensures
        insert_lib(s, m) == s.take(j) + insert_lib(s.skip(j), m),
    decreases j,
{
    if j == 0 {
        assert(s.skip(0) =~= s);
        assert(s.take(0) + insert_lib(s, m) =~= insert_lib(s, m));
    } else {
        assert(s[0].name != m.name);
        assert forall|k: int| 0 <= k < j - 1 implies s.drop_first()[k].name != m.name by {
            assert(s.drop_first()[k] == s[k + 1]);
        }
        lemma_insert_skip(s.drop_first(), m, j - 1);
        assert(s.take(j) =~= seq![s[0]] + s.drop_first().take(j - 1));
        assert(s.skip(j) =~= s.drop_first().skip(j - 1));
        assert(seq![s[0]] + (s.drop_first().take(j - 1) + insert_lib(s.drop_first().skip(j - 1), m))
            =~= s.take(j) + insert_lib(s.skip(j), m));
    }
}

/// The draft held between lines, if one is open.
spec fn draft_model(c: Option<EntryDraft>) -> Option<DraftModel> {
    match c {
        Some(d) => Some(d@),
        None => None,
    }
}

/// Parse a quoted value into the string it denotes.
fn unquote(v: &str) -> (r: Option<String>)
    ensures
        match r {
            Some(x) => parse_quoted(v@) == Some(x@),
            None => parse_quoted(v@) is None,
        },
{
    let n = v.unicode_len();
    if n < 2 {
        return None;
    }
    if v.get_char(0) != '"' || v.get_char(n - 1) != '"' {
        return None;
    }
    let mut k: usize = 1;
    while k < n - 1
        invariant
            1 <= k <= n - 1,
            n == v@.len(),
            n >= 2,
            forall|t: int| 1 <= t < k ==> v@[t] != '"' && v@[t] != '\\',
        decreases n - 1 - k,
    {
        let c = v.get_char(k);
        if c == '"' || c == '\\' {
            assert(!(v@[k as int] != '"' && v@[k as int] != '\\'));
            return None;
        }
        k = k + 1;
    }
    Some(v.substring_char(1, n - 1).to_owned())
}

/// Parse a bare boolean value.
fn parse_bool(v: &str) -> (r: Option<bool>)
    ensures
        r == parse_bool_lit(v@),
{
    if str_eq(v, "true") {
        Some(true)
    } else if str_eq(v, "false") {
        Some(false)
    } else {
        None
    }
}

/// Insert one library, replacing any earlier entry of the same name.
fn insert_entry(libs: &mut Vec<Library>, lib: Library)
    requires
        names_unique(models(old(libs)@)),
    ensures
        models(final(libs)@) == insert_lib(models(old(libs)@), lib@),
{
    let n = libs.len();
    let mut i: usize = 0;
    while i < n
        invariant
            i <= n,
            n == libs.len(),
            libs@ == old(libs)@,
            forall|k: int| 0 <= k < i ==> models(libs@)[k].name != lib@.name,
        decreases n - i,
    {
        if str_eq(libs[i].name.as_str(), lib.name.as_str()) {
            proof {
                let s = models(libs@);
                let m = lib@;
                lemma_insert_skip(s, m, i as int);
                assert(s.skip(i as int)[0] == s[i as int]);
                assert(s.skip(i as int).drop_first() =~= s.skip(i as int + 1));
                assert(insert_lib(s.skip(i as int), m) == seq![m] + s.skip(i as int + 1));
                assert(s.take(i as int) + (seq![m] + s.skip(i as int + 1)) =~= s.update(
                    i as int,
                    m,
                ));
            }
            let ghost pre = models(libs@);
            libs.set(i, lib);
            proof {
                assert(models(libs@) =~= pre.update(i as int, lib@));
            }
            return;
        }
        i = i + 1;
    }
    proof {
        let s = models(libs@);
        let m = lib@;
        lemma_insert_skip(s, m, s.len() as int);
        assert(s.skip(s.len() as int) =~= Seq::<LibModel>::empty());
        assert(insert_lib(Seq::<LibModel>::empty(), m) == seq![m]);
        assert(s.take(s.len() as int) =~= s);
    }
    let ghost pre = models(libs@);
    libs.push(lib);
    proof {
        assert(models(libs@) =~= pre + seq![lib@]);
    }
}

/// An entry draft with every field at its document default.
fn fresh_draft() -> (r: EntryDraft)
    ensures
        r@ == empty_draft(),
{
    let r = EntryDraft {
        name: None,
        description: None,
        axo_use: false,
        create_cli: false,
        category: None,
    };
    proof {
        assert(r@ =~= empty_draft());
    }
    r
}

/// Close a draft into the committed entries.
fn commit_entry(libs: &mut Vec<Library>, d: EntryDraft) -> (ok: bool)
    requires
        names_unique(models(old(libs)@)),
    ensures
        names_unique(models(final(libs)@)),
        ok ==> commit_draft(models(old(libs)@), d@) == Some(models(final(libs)@)),
        !ok ==> commit_draft(models(old(libs)@), d@) is None && final(libs)@ == old(libs)@,
{
    let EntryDraft { name, description, axo_use, create_cli, category } = d;
    match (name, category) {
        (Some(n), Some(c)) => {
            let lib = Library { name: n, description, axo_use, create_cli, category: c };
            proof {
                lemma_insert_unique(models(libs@), lib@);
            }
            insert_entry(libs, lib);
            true
        },
        _ => false,
    }
}

/// Apply one document line to the walk state.
fn apply_line(libs: &mut Vec<Library>, cur: &mut Option<EntryDraft>, line: &str) -> (ok: bool)
    requires
        names_unique(models(old(libs)@)),
    ensures
        names_unique(models(final(libs)@)),
        ok ==> step_line(models(old(libs)@), draft_model(*old(cur)), line@) == (ParseSt::Good {
            libs: models(final(libs)@),
            cur: draft_model(*final(cur)),
        }),
        !ok ==> step_line(models(old(libs)@), draft_model(*old(cur)), line@) is Bad,
{
    if is_blank(line) {
        return true;
    }
    if str_eq(line, "[[libraries]]") {
        match cur.take() {
            None => {
                *cur = Some(fresh_draft());
                true
            },
            Some(d) => {
                if commit_entry(libs, d) {
                    *cur = Some(fresh_draft());
                    true
                } else {
                    false
                }
            },
        }
    } else {
        match cur.take() {
            None => false,
            Some(mut d) => {
                let ok = apply_kv(&mut d, line);
                *cur = Some(d);
                ok
            },
        }
    }
}

/// Apply one `key = value` line to the open draft.
fn apply_kv(d: &mut EntryDraft, line: &str) -> (ok: bool)
    ensures
        ok ==> step_kv(old(d)@, line@) == Some(final(d)@),
        !ok ==> step_kv(old(d)@, line@) is None,
{
    let n = line.unicode_len();
    if str_starts_with(line, "name = ") {
        let p = "name = ".unicode_len();
        let rest = line.substring_char(p, n);
        proof {
            assert(rest@ =~= line@.skip("name = "@.len() as int));
        }
        match unquote(rest) {
            Some(v) => {
                d.name = Some(v);
                true
            },
            None => false,
        }
    } else if str_starts_with(line, "description = ") {
        let p = "description = ".unicode_len();
        let rest = line.substring_char(p, n);
        proof {
            assert(rest@ =~= line@.skip("description = "@.len() as int));
        }
        match unquote(rest) {
            Some(v) => {
                d.description = Some(v);
                true
            },
            None => false,
        }
    } else if str_starts_with(line, "axo_use = ") {
        let p = "axo_use = ".unicode_len();
        let rest = line.substring_char(p, n);
        proof {
            assert(rest@ =~= line@.skip("axo_use = "@.len() as int));
        }
        match parse_bool(rest) {
            Some(b) => {
                d.axo_use = b;
                true
            },
            None => false,
        }
    } else if str_starts_with(line, "create_cli = ") {
        let p = "create_cli = ".unicode_len();
        let rest = line.substring_char(p, n);
        proof {
            assert(rest@ =~= line@.skip("create_cli = "@.len() as int));
        }
        match parse_bool(rest) {
            Some(b) => {
                d.create_cli = b;
                true
            },
            None => false,
        }
    } else if str_starts_with(line, "category = ") {
        let p = "category = ".unicode_len();
        let rest = line.substring_char(p, n);
        proof {
            assert(rest@ =~= line@.skip("category = "@.len() as int));
        }
        match unquote(rest) {
            Some(v) => match category_of_label(v.as_str()) {
                Some(c) => {
                    d.category = Some(c);
                    true
                },
                None => false,
            },
            None => false,
        }
    } else {
        false
    }
}

/// The embedded catalog document the scaffolder ships with.
pub const CATALOG_DOC: &'static str = "[[libraries]]
name = \"clap\"
description = \"Command-line argument parsing with derive macros\"
category = \"argparsing\"
create_cli = true
axo_use = true

[[libraries]]
name = \"argh\"
description = \"Derive-based argument parsing optimized for size\"
category = \"argparsing\"
create_cli = true

[[libraries]]
name = \"lexopt\"
description = \"A minimal argument parser\"
category = \"argparsing\"

[[libraries]]
name = \"clap_complete\"
description = \"Shell completion generation for clap\"
category = \"commandgen\"
create_cli = true

[[libraries]]
name = \"owo-colors\"
description = \"Zero-allocation terminal colors\"
category = \"formatting\"
create_cli = true

[[libraries]]
name = \"serde_json\"
description = \"JSON serialization and deserialization\"
category = \"structoutput\"
create_cli = true

[[libraries]]
name = \"miette\"
description = \"Fancy diagnostic reporting\"
category = \"errlogdiag\"
create_cli = true
axo_use = true

[[libraries]]
name = \"thiserror\"
description = \"Derive macros for error types\"
category = \"errlogdiag\"

[[libraries]]
name = \"dialoguer\"
description = \"Interactive terminal prompts\"
category = \"interactivity\"
create_cli = true
axo_use = true

[[libraries]]
name = \"insta\"
description = \"Snapshot testing\"
category = \"testing\"

[[libraries]]
name = \"camino\"
description = \"UTF-8 path types\"
category = \"other\"
create_cli = true
";

/// The immutable catalog: library entries with pairwise distinct names.
#[derive(Debug)]
pub struct Libraries {
    /// The entries, in the order the document committed them.
    pub list: Vec<Library>,
}

/// The predicate a category query selects by.
pub open spec fn in_category(c: Category) -> spec_fn(LibModel) -> bool {
    |m: LibModel| m.category == c
}

impl Libraries {
    /// The catalog as a sequence of models.
    pub open spec fn model(&self) -> Seq<LibModel> {
        models(self.list@)
    }

    /// Catalog invariant: entry names are pairwise distinct.
    pub open spec fn wf(&self) -> bool {
        names_unique(self.model())
    }

    /// Build a catalog from a document; rejects exactly the documents
    /// that denote nothing.
    pub fn load(doc: &str) -> (r: Result<Libraries, CreateCliError>)
        ensures
            match r {
                Ok(libs) => parse_catalog_spec(doc@) == Some(libs.model()) && libs.wf(),
                Err(e) => parse_catalog_spec(doc@) is None && e == CreateCliError::CatalogLoad,
            },
    {
        let lines = split_lines(doc);
        let ghost lns = views_of(lines@);
        let mut libs: Vec<Library> = Vec::new();
        let mut cur: Option<EntryDraft> = None;
        proof {
            assert(models(libs@) =~= Seq::<LibModel>::empty());
        }
        let mut i: usize = 0;
        while i < lines.len()
            invariant
                i <= lines.len(),
                lns == views_of(lines@),
                lns == split_lines_spec(doc@),
                run_lines(lns, i as int) == (ParseSt::Good {
                    libs: models(libs@),
                    cur: draft_model(cur),
                }),
                names_unique(models(libs@)),
            decreases lines.len() - i,
        {
            let ok = apply_line(&mut libs, &mut cur, lines[i].as_str());
            proof {
                assert(lns[i as int] == lines@[i as int]@);
            }
            if !ok {
                proof {
                    lemma_run_bad(lns, i as int + 1, lns.len() as int);
                }
                return Err(CreateCliError::CatalogLoad);
            }
            i = i + 1;
        }
        match cur {
            None => Ok(Libraries { list: libs }),
            Some(d) => {
                if commit_entry(&mut libs, d) {
                    Ok(Libraries { list: libs })
                } else {
                    Err(CreateCliError::CatalogLoad)
                }
            },
        }
    }

    /// Build the catalog from the embedded document.
    pub fn new() -> (r: Result<Libraries, CreateCliError>)
        ensures
            match r {
                Ok(libs) => parse_catalog_spec(CATALOG_DOC@) == Some(libs.model()) && libs.wf(),
                Err(e) => parse_catalog_spec(CATALOG_DOC@) is None && e
                    == CreateCliError::CatalogLoad,
            },
    {
        Libraries::load(CATALOG_DOC)
    }

    /// The subset of entries whose category equals the query.
    pub fn get_for_category(&self, category: Category) -> (r: Vec<Library>)
        ensures
            models(r@) == self.model().filter(in_category(category)),
    {
        let mut r: Vec<Library> = Vec::new();
        let n = self.list.len();
        proof {
            assert(models(self.list@.take(0)) =~= Seq::<LibModel>::empty());
            lemma_filter_empty(in_category(category));
            assert(models(r@) =~= Seq::<LibModel>::empty());
        }
        let mut i: usize = 0;
        while i < n
            invariant
                i <= n,
                n == self.list.len(),
                models(r@) == models(self.list@.take(i as int)).filter(in_category(category)),
            decreases n - i,
        {
            proof {
                let s = models(self.list@.take(i as int));
                let x = self.list@[i as int]@;
                assert(models(self.list@.take(i as int + 1)) =~= s + seq![x]);
                Seq::filter_distributes_over_add(s, seq![x], in_category(category));
                lemma_filter_one(x, in_category(category));
            }
            if self.list[i].category == category {
                let ghost pre = models(r@);
                r.push(self.list[i].clone());
                proof {
                    assert(models(r@) =~= pre + seq![self.list@[i as int]@]);
                }
            }
            i = i + 1;
        }
        proof {
            assert(self.list@.take(n as int) =~= self.list@);
        }
        r
    }
}

/// Filtering the empty sequence yields the empty sequence.
pub(crate) proof fn lemma_filter_empty(pred: spec_fn(LibModel) -> bool)
    ensures
        Seq::<LibModel>::empty().filter(pred) == Seq::<LibModel>::empty(),
{
    reveal(Seq::filter);
}

/// Filtering a singleton keeps or drops its one element.
pub(crate) proof fn lemma_filter_one(m: LibModel, pred: spec_fn(LibModel) -> bool)
    ensures
        seq![m].filter(pred) == if pred(m) {
            seq![m]
        } else {
            Seq::<LibModel>::empty()
        },
{
    reveal(Seq::filter);
    assert(seq![m].drop_last() =~= Seq::<LibModel>::empty());
    assert(seq![m].last() == m);
    lemma_filter_empty(pred);
    if pred(m) {
        assert(Seq::<LibModel>::empty().push(m) =~= seq![m]);
    }
}

/// Every element a filter keeps comes from the underlying sequence.
pub(crate) proof fn lemma_filter_subset(s: Seq<LibModel>, pred: spec_fn(LibModel) -> bool, k: int)
    requires
        0 <= k < s.filter(pred).len(),
    ensures
        s.contains(s.filter(pred)[k]),
    decreases s.len(),
{
    reveal(Seq::filter);
    if s.len() == 0 {
    } else {
        let sub = s.drop_last().filter(pred);
        if pred(s.last()) && k == sub.len() {
            assert(s.filter(pred)[k] == s.last());
            assert(s[s.len() - 1] == s.last());
        } else {
            lemma_filter_subset(s.drop_last(), pred, k);
            let x = s.drop_last().filter(pred)[k];
            let j = choose|j: int| 0 <= j < s.drop_last().len() && s.drop_last()[j] == x;
            assert(s[j] == x);
        }
    }
}

/// Law: a category query returns exactly the catalog's libraries of
/// that category — each returned library belongs to it, and no library
/// appears under a category it does not carry.
pub proof fn lemma_for_category_exact(libs: Libraries, c: Category, m: LibModel)
    ensures
        libs.model().filter(in_category(c)).contains(m) <==> libs.model().contains(m) && m.category
            == c,
{
    let s = libs.model();
    let f = s.filter(in_category(c));
    if f.contains(m) {
        let k = choose|k: int| 0 <= k < f.len() && f[k] == m;
        Seq::lemma_filter_pred(s, in_category(c), k);
        lemma_filter_subset(s, in_category(c), k);
    }
    if s.contains(m) && m.category == c {
        let j = choose|j: int| 0 <= j < s.len() && s[j] == m;
        Seq::lemma_filter_contains(s, in_category(c), j);
    }
}

} // verus!

