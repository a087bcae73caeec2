//! The position resolver: from a file path and a 1-based line and column to the
//! definition of the name under the cursor.
use vstd::prelude::*;
use crate::text::{byte_len, join_path, joined, offset_in_text, offset_spec, text_byte_len};
use crate::tokens::{lemma_picked_in_range, picked, pick_token, token_at, token_at_spec, tokens_end, tokens_wf, Site, Token};

verus! {

/// What a query can fail with.
#[derive(Clone, Copy, Debug, PartialEq, Eq, Structural)]
pub enum NavError {
    /// No loaded file has the queried path.
    FileNotFound,
    /// The line or column is 0, or the position is not in the file's text.
    PositionOutOfRange,
    /// The file holds no token at all.
    NoToken,
    /// The token under the cursor is neither a declared name nor a name reference.
    UnsupportedToken,
    /// The name under the cursor does not resolve to a definition.
    DefinitionNotFound,
    /// No package has the requested name.
    PackageNotFound,
}

/// The kind of symbol a definition introduces.
#[derive(Clone, Copy, Debug, PartialEq, Eq, Structural)]
pub enum DefKind {
    Function,
    Struct,
    Enum,
    Union,
    Variant,
    Trait,
    TypeAlias,
    Const,
    Static,
    Module,
    Macro,
    Field,
    Local,
    GenericParam,
    Label,
    BuiltinType,
    Other,
}

/// A symbol's declaration: its identity (its index in the symbol table), kind, name,
/// and, where it lies in a loaded file, that file's index and the byte offset of its name.
#[derive(Debug)]
pub struct Definition {
    pub id: usize,
    pub kind: DefKind,
    pub name: String,
    pub location: Option<(usize, usize)>,
}

impl Definition {
    /// An equal copy of this definition.
    pub fn copied(&self) -> (r: Definition)
        ensures
            r == *self,
    {
        Definition {
            id: self.id,
            kind: self.kind,
            name: self.name.clone(),
            location: self.location,
        }
    }
}

/// One loaded source file: its full path, its text, and its tokens.
#[derive(Debug)]
pub struct SourceFile {
    pub path: String,
    pub text: Vec<char>,
    pub tokens: Vec<Token>,
}

/// A loaded package: its directory, its files, and the symbols that names resolve to.
#[derive(Debug)]
pub struct Analysis {
    pub prj_dir: String,
    pub files: Vec<SourceFile>,
    pub symbols: Vec<Definition>,
}

/// Every site of `tokens` names a symbol below `n_symbols`, if any.
pub open spec fn sites_in_table(tokens: Seq<Token>, n_symbols: nat) -> bool {
    forall|k: int|
        0 <= k < tokens.len() ==> match #[trigger] tokens[k].site {
            Site::Binding(Some(s)) => s < n_symbols,
            Site::Reference(Some(s)) => s < n_symbols,
            _ => true,
        }
}

/// The tokens tile the text, the text is small enough for the line index's 32-bit
/// offsets, and every site names a symbol of the table.
pub open spec fn file_wf(f: SourceFile, n_symbols: nat) -> bool {
    &&& tokens_wf(f.tokens@)
    &&& byte_len(f.text@) == tokens_end(f.tokens@)
    &&& 3 * byte_len(f.text@) < u32::MAX
    &&& sites_in_table(f.tokens@, n_symbols)
}

/// The files' paths are pairwise distinct.
pub open spec fn paths_distinct(files: Seq<SourceFile>) -> bool {
    forall|i: int, j: int|
        0 <= i < files.len() && 0 <= j < files.len() && i != j ==> #[trigger] files[i].path@
            != #[trigger] files[j].path@
}

/// Each symbol's identity is its index.
pub open spec fn ids_are_indices(symbols: Seq<Definition>) -> bool {
    forall|i: int| 0 <= i < symbols.len() ==> #[trigger] symbols[i].id == i
}

/// Index of the file whose path is `key`, if there is one.
pub open spec fn file_index(files: Seq<SourceFile>, key: Seq<char>) -> Option<int> {
    if exists|i: int| 0 <= i < files.len() && #[trigger] files[i].path@ == key {
        Some(choose|i: int| 0 <= i < files.len() && #[trigger] files[i].path@ == key)
    } else {
        None
    }
}

/// What the site of the chosen token resolves to.
pub open spec fn classify_spec(site: Site, symbols: Seq<Definition>) -> Result<Definition, NavError> {
    match site {
        Site::Binding(Some(s)) => Ok(symbols[s as int]),
        Site::Reference(Some(s)) => Ok(symbols[s as int]),
        Site::Binding(None) => Err(NavError::DefinitionNotFound),
        Site::Reference(None) => Err(NavError::DefinitionNotFound),
        Site::Other => Err(NavError::UnsupportedToken),
    }
}

/// Whether `tokens` are non-empty and tile the text from offset 0 without gaps.
pub fn check_tokens(tokens: &Vec<Token>) -> (r: bool)
    ensures
        r == tokens_wf(tokens@),
{
    let n = tokens.len();
    let mut i: usize = 0;
    while i < n
        invariant
            n == tokens@.len(),
            i <= n,
            forall|j: int| 0 <= j < i ==> #[trigger] tokens@[j].start < tokens@[j].end,
            forall|j: int| 0 <= j < i && j < n - 1 ==> #[trigger] tokens@[j].end == tokens@[j + 1].start,
        decreases n - i,
    {
        if tokens[i].start >= tokens[i].end {
            return false;
        }
        if i + 1 < n && tokens[i].end != tokens[i + 1].start {
            return false;
        }
        i = i + 1;
    }
    n == 0 || tokens[0].start == 0
}

/// Whether every site of `tokens` names a symbol below `n_symbols`.
pub fn check_sites(tokens: &Vec<Token>, n_symbols: usize) -> (r: bool)
    ensures
        r == sites_in_table(tokens@, n_symbols as nat),
{
    let mut k: usize = 0;
    while k < tokens.len()
        invariant
            k <= tokens@.len(),
            sites_in_table(tokens@.take(k as int), n_symbols as nat),
        decreases tokens@.len() - k,
    {
        let ok = match tokens[k].site {
            Site::Binding(Some(s)) => s < n_symbols,
            Site::Reference(Some(s)) => s < n_symbols,
            _ => true,
        };
        if !ok {
            assert(!sites_in_table(tokens@, n_symbols as nat)) by {
                assert(tokens@[k as int] == tokens@[k as int]);
            }
            return false;
        }
        assert(tokens@.take(k + 1) =~= tokens@.take(k as int).push(tokens@[k as int]));
        k = k + 1;
    }
    assert(tokens@.take(k as int) =~= tokens@);
    true
}

/// Whether `f` is well formed against a table of `n_symbols` symbols.
pub fn check_file(f: &SourceFile, n_symbols: usize) -> (r: bool)
    ensures
        r == file_wf(*f, n_symbols as nat),
{
    if !check_tokens(&f.tokens) {
        return false;
    }
    let end: usize = if f.tokens.len() == 0 {
        0
    } else {
        f.tokens[f.tokens.len() - 1].end
    };
    match text_byte_len(&f.text) {
        None => false,
        Some(b) => b == end && b < 0x5555_5555 && check_sites(&f.tokens, n_symbols),
    }
}

/// Resolving a name where it is declared, and then at one of its uses (a name
/// reference that the model ties to that same symbol), gives the same definition.
pub proof fn lemma_binding_and_use_agree(
    a: Analysis,
    decl_file: Seq<char>,
    decl_line: u32,
    decl_col: u32,
    use_file: Seq<char>,
    use_line: u32,
    use_col: u32,
)
    requires
        a.wf(),
        a.token_spec(joined(a.prj_dir@, decl_file), decl_line, decl_col) matches Ok(t)
            && t.site is Binding,
        a.resolve_spec(decl_file, decl_line, decl_col) is Ok,
        a.token_spec(joined(a.prj_dir@, use_file), use_line, use_col) matches Ok(u)
            && u.site == Site::Reference(Some(a.resolve_spec(decl_file, decl_line, decl_col)->Ok_0.id)),
    ensures
        a.resolve_spec(use_file, use_line, use_col) == a.resolve_spec(decl_file, decl_line, decl_col),
{
    let key = joined(a.prj_dir@, decl_file);
    let i = file_index(a.files@, key)->Some_0;
    let f = a.files@[i];
    assert(file_wf(f, a.symbols@.len()));
    let off = offset_spec(f.text@, (decl_line - 1) as nat, (decl_col - 1) as nat)->Some_0;
    lemma_picked_in_range(f.tokens@, off as nat);
    let k = picked(f.tokens@, token_at_spec(f.tokens@, off as nat))->Some_0;
    assert(f.tokens@[k as int].site == f.tokens@[k as int].site);
}

impl Analysis {
    /// Every file is well formed, no two share a path, and symbols are their indices.
    pub open spec fn wf(&self) -> bool {
        &&& forall|i: int|
            0 <= i < self.files@.len() ==> file_wf(#[trigger] self.files@[i], self.symbols@.len())
        &&& paths_distinct(self.files@)
        &&& ids_are_indices(self.symbols@)
    }

    /// The token chosen at 1-based (`line`, `col`) of the file with path `key`.
    pub open spec fn token_spec(&self, key: Seq<char>, line: u32, col: u32) -> Result<Token, NavError> {
        match file_index(self.files@, key) {
            None => Err(NavError::FileNotFound),
            Some(i) => {
                let f = self.files@[i];
                if line == 0 || col == 0 {
                    Err(NavError::PositionOutOfRange)
                } else {
                    match offset_spec(f.text@, (line - 1) as nat, (col - 1) as nat) {
                        None => Err(NavError::PositionOutOfRange),
                        Some(off) => match picked(f.tokens@, token_at_spec(f.tokens@, off as nat)) {
                            None => Err(NavError::NoToken),
                            Some(k) => Ok(f.tokens@[k as int]),
                        },
                    }
                }
            },
        }
    }

    /// The definition found at 1-based (`line`, `col`) of `file`, taken relative to the
    /// package directory.
    pub open spec fn resolve_spec(&self, file: Seq<char>, line: u32, col: u32) -> Result<Definition, NavError> {
        match self.token_spec(joined(self.prj_dir@, file), line, col) {
            Err(e) => Err(e),
            Ok(t) => classify_spec(t.site, self.symbols@),
        }
    }


    /// Wraps a loaded package, or `None` where the data is not well formed (tokens that
    /// do not tile a file's text, a site naming a missing symbol, two files with one
    /// path, or a symbol whose identity is not its index).
    pub fn new(prj_dir: String, files: Vec<SourceFile>, symbols: Vec<Definition>) -> (r: Option<Analysis>)
        ensures
            r is Some <==> (Analysis { prj_dir, files, symbols }).wf(),
            r matches Some(a) ==> a.prj_dir == prj_dir && a.files == files && a.symbols == symbols,
    {
        let ghost whole = Analysis { prj_dir, files, symbols };
        let n_symbols = symbols.len();
        let mut i: usize = 0;
        while i < symbols.len()
            invariant
                n_symbols == symbols@.len(),
                i <= symbols@.len(),
                forall|j: int| 0 <= j < i ==> #[trigger] symbols@[j].id == j,
            decreases symbols@.len() - i,
        {
            if symbols[i].id != i {
                return None;
            }
            i = i + 1;
        }
        let mut i: usize = 0;
        while i < files.len()
            invariant
                n_symbols == symbols@.len(),
                i <= files@.len(),
                ids_are_indices(symbols@),
                forall|j: int| 0 <= j < i ==> file_wf(#[trigger] files@[j], n_symbols as nat),
                forall|a: int, b: int|
                    0 <= a < i && 0 <= b < files@.len() && a != b ==> #[trigger] files@[a].path@
                        != #[trigger] files@[b].path@,
            decreases files@.len() - i,
        {
            if !check_file(&files[i], n_symbols) {
                return None;
            }
            let mut j: usize = 0;
            while j < files.len()
                invariant
                    i < files@.len(),
                    j <= files@.len(),
                    forall|b: int|
                        0 <= b < j && b != i ==> files@[i as int].path@ != #[trigger] files@[b].path@,
                decreases files@.len() - j,
            {
                if j != i && files[i].path == files[j].path {
                    assert(!paths_distinct(files@)) by {
                        assert(files@[i as int].path@ == files@[j as int].path@);
                    }
                    return None;
                }
                j = j + 1;
            }
            i = i + 1;
        }
        Some(Analysis { prj_dir, files, symbols })
    }

    /// Looks up `file` (relative to the package directory), turns the 1-based `line` and
    /// UTF-16 `col` into an offset, picks the token there, and resolves the name it is.
    pub fn resolve(&self, file: &str, line: u32, col: u32) -> (r: Result<Definition, NavError>)
        requires
            self.wf(),
        ensures
            r == self.resolve_spec(file@, line, col),
    {
        let key = join_path(self.prj_dir.as_str(), file);
        let mut i: usize = 0;
        while i < self.files.len() && self.files[i].path != key
            invariant
                i <= self.files@.len(),
                forall|j: int| 0 <= j < i ==> #[trigger] self.files@[j].path@ != key@,
            decreases self.files@.len() - i,
        {
            i = i + 1;
        }
        if i >= self.files.len() {
            return Err(NavError::FileNotFound);
        }
        let ghost fi = file_index(self.files@, key@);
        assert(self.files@[i as int].path@ == key@);
        assert(fi == Some(i as int));
        let f = &self.files[i];
        assert(file_wf(*f, self.symbols@.len()));
        if line == 0 || col == 0 {
            return Err(NavError::PositionOutOfRange);
        }
        let off = match offset_in_text(&f.text, line - 1, col - 1) {
            None => {
                return Err(NavError::PositionOutOfRange);
            },
            Some(o) => o,
        };
        let at = token_at(&f.tokens, off);
        let k = match pick_token(&f.tokens, at) {
            None => {
                return Err(NavError::NoToken);
            },
            Some(k) => k,
        };
        let site = f.tokens[k].site;
        match site {
            Site::Binding(Some(s)) => Ok(self.symbols[s].copied()),
            Site::Reference(Some(s)) => Ok(self.symbols[s].copied()),
            Site::Binding(None) => Err(NavError::DefinitionNotFound),
            Site::Reference(None) => Err(NavError::DefinitionNotFound),
            Site::Other => Err(NavError::UnsupportedToken),
        }
    }
}

} // verus!
