use crate::lang::env::{DbEnv, UniqueVariableId};
use crate::lang::error::PrismError;
use crate::parser::{ParsedIndex, ParsedPrismExpr};
use std::collections::{HashMap, HashSet};
use vstd::prelude::*;

pub mod env;
pub mod error;
pub mod beta_reduce_head;
pub mod display;
pub mod tree;
pub mod simplify;
pub mod beta_reduce;
pub mod is_beta_equal;
pub mod type_check;
pub mod expect_beq;

verus! {

/// A range of a source file.
#[derive(Copy, Clone, Debug, PartialEq, Eq, Structural, Hash)]
pub struct Span {
    pub file: usize,
    pub start: usize,
    pub end: usize,
}

/// An index into the core expression arena.
#[derive(Copy, Clone, Hash, Eq, PartialEq, Structural, Debug)]
pub struct CoreIndex(pub usize);

/// A grammar that a program defines; it stands for the grammar file that the parser built.
#[derive(Copy, Clone, Hash, Eq, PartialEq, Structural, Debug)]
pub struct GrammarId(pub usize);

/// Where a core expression comes from.
#[derive(Copy, Clone, Hash, Eq, PartialEq, Structural, Debug)]
pub enum ValueOrigin {
    /// This is an AST node directly from the source code
    SourceCode(Span),
    /// This is the type of another AST node
    TypeOf(CoreIndex),
    /// This is an AST node generated from expanding the given free variable
    FreeSub(CoreIndex),
    /// This is an (initially free) AST node generated because type checking a node failed
    Failure,
}

/// A core expression; variables are de Bruijn indices.
#[derive(Copy, Clone, Hash, Eq, PartialEq, Structural, Debug)]
pub enum CorePrismExpr {
    Free,
    Type,
    Let(CoreIndex, CoreIndex),
    DeBruijnIndex(usize),
    FnType(CoreIndex, CoreIndex),
    FnConstruct(CoreIndex),
    FnDestruct(CoreIndex, CoreIndex),
    Shift(CoreIndex, usize),
    TypeAssert(CoreIndex, CoreIndex),
    GrammarValue(GrammarId),
    GrammarType,
}

/// The program database: the arena of core expressions with their origins, and the
/// state of type checking.
pub struct PrismEnv {
    // Parsed Values
    pub parsed_values: Vec<ParsedPrismExpr>,
    pub parsed_spans: Vec<Span>,
    // Checked Values
    pub checked_values: Vec<CorePrismExpr>,
    pub checked_origins: Vec<ValueOrigin>,
    /// The type computed for each checked value, by the value's index.
    pub checked_types: HashMap<usize, CoreIndex>,
    // State during type checking
    pub tc_id: usize,
    /// Constraints that wait for a free value, by the free value's index.
    pub queued_beq_free: HashMap<usize, Vec<QueuedConstraint>>,
    /// Free values that are being solved; solving one of them again would give an infinite type.
    pub toxic_values: HashSet<usize>,
    pub errors: Vec<PrismError>,
    /// The files processed so far, or being processed, by file number.
    pub files: HashMap<usize, ProcessedFileTableEntry>,
}

/// The state of a file of the program.
#[derive(Copy, Clone, Debug, PartialEq, Eq, Structural)]
pub enum ProcessedFileTableEntry {
    Processing,
    Processed(ProcessedFile),
}

/// Whether type checking records a type for the root of a tree: not for a type
/// assertion, a variable or a shift, which have the type of another value or reach
/// outside the empty scope, nor for a tree with a child out of place.
pub open spec fn tree_records_type(t: crate::lang::tree::CTree) -> bool {
    match t {
        crate::lang::tree::CTree::Bad => false,
        crate::lang::tree::CTree::TypeAssert(..) => false,
        crate::lang::tree::CTree::DeBruijnIndex(_) => false,
        crate::lang::tree::CTree::Shift(..) => false,
        _ => true,
    }
}

/// A file turned into a core expression and type checked.
#[derive(Copy, Clone, Debug, PartialEq, Eq, Structural)]
pub struct ProcessedFile {
    pub parsed: ParsedIndex,
    pub core: CoreIndex,
    pub typ: CoreIndex,
}

/// What to do with a file that is asked for.
#[derive(Copy, Clone, Debug, PartialEq, Eq, Structural)]
pub enum FileStart {
    /// It was processed before: this is the result.
    Cached(ProcessedFile),
    /// It is being processed: the files include each other.
    ImportCycle,
    /// It is new: parse it, then hand it to `finish_file`.
    Parse,
}

/// A constraint that waits for a free value: the scope in which that value lives with its
/// variable depths, and the value that it must equal with its scope and variable depths.
pub type QueuedConstraint = ((DbEnv, HashMap<usize, usize>), (CoreIndex, DbEnv, HashMap<usize, usize>));

/// The identity counter after handing out `n`.
pub open spec fn next_id(n: usize) -> usize {
    if n == usize::MAX {
        0
    } else {
        (n + 1) as usize
    }
}

/// The program database under its other name.
pub type PrismDb = PrismEnv;

impl PrismEnv {
    /// The core arena and its origins have one entry per value.
    pub open spec fn arena_wf(&self) -> bool {
        self.checked_values@.len() == self.checked_origins@.len()
    }

    /// An empty database.
    pub fn new() -> (r: Self)
        ensures
            r.arena_wf(),
            r.parsed_wf(),
            r.parsed_values@.len() == 0,
            r.parsed_spans@.len() == 0,
            r.checked_values@ == Seq::<CorePrismExpr>::empty(),
            r.checked_origins@.len() == 0,
            r.checked_types@ == Map::<usize, CoreIndex>::empty(),
            r.queued_beq_free@ == Map::<usize, Vec<QueuedConstraint>>::empty(),
            r.toxic_values@ == Set::<usize>::empty(),
            r.errors@.len() == 0,
            r.files@ == Map::<usize, ProcessedFileTableEntry>::empty(),
            r.tc_id == 0,
    {
        PrismEnv {
            parsed_values: Vec::new(),
            parsed_spans: Vec::new(),
            checked_values: Vec::new(),
            checked_origins: Vec::new(),
            checked_types: HashMap::new(),
            tc_id: 0,
            queued_beq_free: HashMap::new(),
            toxic_values: HashSet::new(),
            errors: Vec::new(),
            files: HashMap::new(),
        }
    }

    /// Stores a core expression with its origin, and returns its index.
    pub fn store_checked(&mut self, e: CorePrismExpr, origin: ValueOrigin) -> (r: CoreIndex)
        requires
            old(self).arena_wf(),
        ensures
            final(self).arena_wf(),
            final(self).checked_values@ == old(self).checked_values@.push(e),
            final(self).checked_origins@ == old(self).checked_origins@.push(origin),
            final(self).parsed_values == old(self).parsed_values,
            final(self).parsed_spans == old(self).parsed_spans,
            final(self).tc_id == old(self).tc_id,
            final(self).errors == old(self).errors,
            final(self).checked_types == old(self).checked_types,
            final(self).queued_beq_free == old(self).queued_beq_free,
            final(self).toxic_values == old(self).toxic_values,
            final(self).files == old(self).files,
            r.0 == old(self).checked_values@.len(),
    {
        self.checked_values.push(e);
        self.checked_origins.push(origin);
        CoreIndex(self.checked_values.len() - 1)
    }

    /// A variable identity that has not been handed out before (the counter wraps
    /// around after `usize::MAX` identities).
    pub fn new_tc_id(&mut self) -> (r: UniqueVariableId)
        ensures
            r.0 == old(self).tc_id,
            final(self).tc_id == next_id(old(self).tc_id),
            final(self).parsed_values == old(self).parsed_values,
            final(self).parsed_spans == old(self).parsed_spans,
            final(self).checked_values == old(self).checked_values,
            final(self).checked_origins == old(self).checked_origins,
            final(self).errors == old(self).errors,
            final(self).toxic_values == old(self).toxic_values,
            final(self).queued_beq_free == old(self).queued_beq_free,
            final(self).checked_types == old(self).checked_types,
    {
        let id = UniqueVariableId(self.tc_id);
        self.tc_id = if self.tc_id == usize::MAX {
            0
        } else {
            self.tc_id + 1
        };
        id
    }
}

} // verus!

verus! {

broadcast use vstd::std_specs::hash::group_hash_axioms;

/// How processing `file` starts, given the table of files: with its result when it was
/// processed before, with an import cycle when it is being processed, and else by parsing.
pub open spec fn file_start(files: Map<usize, ProcessedFileTableEntry>, file: usize) -> FileStart {
    match files.get(file) {
        None => FileStart::Parse,
        Some(ProcessedFileTableEntry::Processing) => FileStart::ImportCycle,
        Some(ProcessedFileTableEntry::Processed(p)) => FileStart::Cached(p),
    }
}

/// The file table caches results: a file that `finish_file` recorded starts from its
/// result, a file that `begin_file` marked and that is not finished yet is an import
/// cycle, and a file that `forget_file` dropped is parsed again.
pub proof fn lemma_file_cache(files: Map<usize, ProcessedFileTableEntry>, file: usize, p: ProcessedFile)
    ensures
        file_start(files.insert(file, ProcessedFileTableEntry::Processed(p)), file)
            == FileStart::Cached(p),
        file_start(files.insert(file, ProcessedFileTableEntry::Processing), file)
            == FileStart::ImportCycle,
        file_start(files.remove(file), file) == FileStart::Parse,
{
}

impl PrismEnv {
    /// Starts processing `file`: its result when it was processed before, an import cycle
    /// when it is being processed, and else marks it as being processed.
    pub fn begin_file(&mut self, file: usize) -> (r: FileStart)
        ensures
            r == file_start(old(self).files@, file),
            match old(self).files@.get(file) {
                None => r == FileStart::Parse && final(self).files@ == old(self).files@.insert(
                    file,
                    ProcessedFileTableEntry::Processing,
                ),
                Some(ProcessedFileTableEntry::Processing) => r == FileStart::ImportCycle
                    && final(self).files@ == old(self).files@,
                Some(ProcessedFileTableEntry::Processed(p)) => r == FileStart::Cached(p)
                    && final(self).files@ == old(self).files@,
            },
            final(self).checked_values == old(self).checked_values,
            final(self).checked_origins == old(self).checked_origins,
            final(self).checked_types == old(self).checked_types,
            final(self).parsed_values == old(self).parsed_values,
            final(self).parsed_spans == old(self).parsed_spans,
            final(self).queued_beq_free == old(self).queued_beq_free,
            final(self).toxic_values == old(self).toxic_values,
            final(self).tc_id == old(self).tc_id,
            final(self).errors == old(self).errors,
    {
        match self.files.get(&file) {
            Some(ProcessedFileTableEntry::Processing) => FileStart::ImportCycle,
            Some(ProcessedFileTableEntry::Processed(p)) => FileStart::Cached(*p),
            None => {
                self.files.insert(file, ProcessedFileTableEntry::Processing);
                FileStart::Parse
            },
        }
    }

    /// Finishes processing `file`, parsed as `parsed`: turns it into a core expression,
    /// type checks it, and records the result.
    pub fn finish_file(&mut self, file: usize, parsed: ParsedIndex) -> (r: ProcessedFile)
        requires
            old(self).arena_wf(),
            old(self).parsed_wf(),
        ensures
            final(self).files@ == old(self).files@.insert(file, ProcessedFileTableEntry::Processed(r)),
            r.parsed == parsed,
            r.typ.0 < final(self).checked_values@.len(),
            old(self).checked_values@.len() <= final(self).checked_values@.len(),
            match crate::parser::parsed_to_checked::p2c(
                old(self).parsed_values@,
                old(self).parsed_spans@,
                old(self).checked_values@,
                crate::parser::named_env::SNamedEnv {
                    env_len: 0,
                    names: Seq::empty(),
                    hygienic_names: Seq::empty(),
                },
                Map::empty(),
                parsed,
                crate::lang::type_check::RECURSION_LIMIT as nat,
            ) {
                Some(o) => r.core.0 < final(self).checked_values@.len() && (crate::lang::tree::no_holes(
                    o.tree,
                ) ==> crate::lang::tree::read_back(final(self).checked_values@, r.core.0 as int)
                    == o.tree) && (tree_records_type(o.tree) ==> final(self).checked_types@.contains_key(
                    r.core.0,
                ) && final(self).checked_types@[r.core.0] == r.typ),
                None => true,
            },
    {
        let mut files: HashMap<usize, ProcessedFileTableEntry> = HashMap::new();
        std::mem::swap(&mut files, &mut self.files);
        let ghost s0 = *self;
        let core = self.parsed_to_checked(parsed);
        let ghost s1 = *self;
        let typ = self.type_check(core);
        proof {
            if let Some(o) = crate::parser::parsed_to_checked::p2c(
                s0.parsed_values@,
                s0.parsed_spans@,
                s0.checked_values@,
                crate::parser::named_env::SNamedEnv {
                    env_len: 0,
                    names: Seq::empty(),
                    hygienic_names: Seq::empty(),
                },
                Map::empty(),
                parsed,
                crate::lang::type_check::RECURSION_LIMIT as nat,
            ) {
                if crate::lang::tree::no_holes(o.tree) {
                    crate::lang::tree::lemma_read_back_filled(
                        s1.checked_values@,
                        self.checked_values@,
                        core.0 as int,
                    );
                }
                assert(tree_records_type(o.tree) ==> crate::lang::type_check::records_type(
                    s1.checked_values@[core.0 as int],
                    0,
                ));
            }
        }
        let processed = ProcessedFile { parsed, core, typ };
        files.insert(file, ProcessedFileTableEntry::Processed(processed));
        self.files = files;
        processed
    }

    /// Forgets the result of `file`, so that it is processed again when asked for.
    pub fn forget_file(&mut self, file: usize)
        ensures
            final(self).files@ == old(self).files@.remove(file),
            final(self).checked_values == old(self).checked_values,
    {
        self.files.remove(&file);
    }

    /// Clears the state of type checking: the waiting constraints, the errors and the
    /// identity counter.
    pub fn reset(&mut self)
        ensures
            final(self).queued_beq_free@ == Map::<usize, Vec<QueuedConstraint>>::empty(),
            final(self).errors@.len() == 0,
            final(self).tc_id == 0,
            final(self).checked_values == old(self).checked_values,
            final(self).parsed_values == old(self).parsed_values,
    {
        self.queued_beq_free.clear();
        self.errors.clear();
        self.tc_id = 0;
    }
}

} // verus!
