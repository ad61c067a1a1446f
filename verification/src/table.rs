//! The workspace-scoped table of stored chunks: ingest with fresh unique
//! ids, filter-based deletes, and workspace-filtered reads.

use vstd::arithmetic::div_mod::lemma_fundamental_div_mod_converse;
use vstd::prelude::*;

use crate::record::{EmbeddedChunk, EmbeddedChunkV, Record, RecordV};
use crate::search::{matching_rows, row_matches_filter};
use crate::text::{strip_verbatim_markers, without_verbatim};
use crate::Error;

verus! {

/// The vector dimension of the deployed embedding model; a deployment with a
/// different model declares the table with its own dimension instead.
pub const DEFAULT_VECTOR_DIMENSION: usize = 512;

/// Row ids place a per-table sequence number in the high 64 bits, which makes
/// them provably unique, and random bits in the low 64.
pub const ID_SEQ_BASE: u128 = 0x10000000000000000;

/// The sequence number an id carries in its high bits.
pub open spec fn id_seq_part(id: u128) -> int {
    id as int / ID_SEQ_BASE as int
}

/// Relies on `uuid::Uuid::new_v4` for 64 random bits; the value is random,
/// so nothing is promised of it.
#[verifier::external_body]
fn random_component() -> u64 {
    uuid::Uuid::new_v4().as_u128() as u64
}

/// Mints a fresh id: the sequence number in the high bits pins it down as
/// unique; the low bits are random.
fn mint_id(seq_no: u64) -> (id: u128)
    ensures
        id_seq_part(id) == seq_no,
{
    let noise = random_component();
    let high = (seq_no as u128) * ID_SEQ_BASE;
    let id: u128 = high + (noise as u128);
    proof {
        assert((seq_no as u128) * ID_SEQ_BASE <= (u64::MAX as u128) * ID_SEQ_BASE)
            by (nonlinear_arith)
            requires
                seq_no <= u64::MAX,
        ;
        lemma_fundamental_div_mod_converse(
            id as int,
            ID_SEQ_BASE as int,
            seq_no as int,
            noise as int,
        );
    }
    id
}

/// The stored row built from one chunk at ingest: tagged with the workspace,
/// its file path cleaned of verbatim markers, carrying the fresh id.
pub open spec fn record_for(
    c: EmbeddedChunkV,
    w: Seq<char>,
    wp: Seq<char>,
    id: u128,
) -> RecordV {
    RecordV {
        id: id,
        workspace_name: w,
        workspace_path: wp,
        file_name: without_verbatim(c.file_name),
        page_number: c.page_number,
        text: c.text,
        vector: c.vector,
    }
}

/// The chunk's vector length matches the table's dimension.
pub open spec fn chunk_dim_ok(c: EmbeddedChunkV, dim: int) -> bool {
    c.vector.len() == dim
}

/// In-memory model of the vector table: the stored rows, the id sequence
/// counter, and the fixed vector dimension declared at creation.
pub struct Table {
    rows: Vec<Record>,
    next_seq: u64,
    dim: usize,
}

impl Table {
    /// The stored rows, in insertion order.
    pub closed spec fn rows_view(self) -> Seq<RecordV> {
        self.rows.deep_view()
    }

    /// The sequence number the next ingested row will carry.
    pub closed spec fn next_sequence(self) -> u64 {
        self.next_seq
    }

    /// The vector dimension of the table's schema.
    pub closed spec fn dimension(self) -> int {
        self.dim as int
    }

    /// Every stored row respects the schema: vector length equals the
    /// dimension, text is never empty, the id's sequence part is spent, and
    /// ids are pairwise distinct.
    pub closed spec fn wf(self) -> bool {
        &&& forall|i: int|
            0 <= i < self.rows_view().len() ==> (#[trigger] self.rows_view()[i]).vector.len()
                == self.dimension()
        &&& forall|i: int|
            0 <= i < self.rows_view().len() ==> (#[trigger] self.rows_view()[i]).text.len() > 0
        &&& forall|i: int|
            0 <= i < self.rows_view().len() ==> id_seq_part(
                (#[trigger] self.rows_view()[i]).id,
            ) < self.next_sequence()
        &&& forall|i: int, j: int|
            0 <= i < j < self.rows_view().len() ==> (#[trigger] self.rows_view()[i]).id
                != (#[trigger] self.rows_view()[j]).id
    }

    /// Creates an empty table of the given vector dimension.
    pub fn new(dim: usize) -> (t: Table)
        ensures
            t.wf(),
            t.rows_view() =~= Seq::<RecordV>::empty(),
            t.dimension() == dim,
            t.next_sequence() == 0,
    {
        Table { rows: Vec::new(), next_seq: 0, dim }
    }

    /// Number of stored rows.
    pub fn count_rows(&self) -> (n: usize)
        ensures
            n == self.rows_view().len(),
    {
        self.rows.len()
    }

    /// The table's vector dimension.
    pub fn dim(&self) -> (d: usize)
        ensures
            d == self.dimension(),
    {
        self.dim
    }

    /// Appends one row per chunk, all tagged with the given workspace, each
    /// with a fresh id unique across the batch and across every earlier
    /// ingest. The batch is all-or-nothing: one chunk of the wrong vector
    /// dimension rejects the whole call and leaves the table unchanged.
    pub fn upsert(
        &mut self,
        workspace_name: &String,
        workspace_path: &String,
        chunks: Vec<EmbeddedChunk>,
    ) -> (r: Result<(), Error>)
        requires
            old(self).wf(),
            forall|i: int|
                0 <= i < chunks.deep_view().len() ==> (#[trigger] chunks.deep_view()[i]).text.len()
                    > 0,
            old(self).next_sequence() + chunks@.len() <= u64::MAX,
        ensures
            final(self).wf(),
            final(self).dimension() == old(self).dimension(),
            match r {
                Ok(_) => {
                    &&& forall|i: int|
                        0 <= i < chunks.deep_view().len() ==> chunk_dim_ok(
                            #[trigger] chunks.deep_view()[i],
                            old(self).dimension(),
                        )
                    &&& final(self).rows_view().len() == old(self).rows_view().len()
                        + chunks.deep_view().len()
                    &&& final(self).rows_view().subrange(0, old(self).rows_view().len() as int)
                        == old(self).rows_view()
                    &&& forall|i: int|
                        0 <= i < chunks.deep_view().len() ==> #[trigger] final(self).rows_view()[old(
                            self,
                        ).rows_view().len() + i] == record_for(
                            chunks.deep_view()[i],
                            workspace_name@,
                            workspace_path@,
                            final(self).rows_view()[old(self).rows_view().len() + i].id,
                        )
                    &&& forall|i: int|
                        0 <= i < chunks.deep_view().len() ==> id_seq_part(
                            (#[trigger] final(self).rows_view()[old(self).rows_view().len()
                                + i]).id,
                        ) == old(self).next_sequence() + i
                    &&& final(self).next_sequence() == old(self).next_sequence()
                        + chunks.deep_view().len()
                },
                Err(e) => {
                    &&& e == Error::DimensionMismatch
                    &&& exists|i: int|
                        0 <= i < chunks.deep_view().len() && !chunk_dim_ok(
                            #[trigger] chunks.deep_view()[i],
                            old(self).dimension(),
                        )
                    &&& *final(self) == *old(self)
                },
            },
    {
        let ghost cs = chunks.deep_view();
        // reject the whole batch before any write
        let mut j: usize = 0;
        while j < chunks.len()
            invariant
                j <= cs.len(),
                cs == chunks.deep_view(),
                *self == *old(self),
                self.wf(),
                forall|k: int| 0 <= k < j ==> chunk_dim_ok(#[trigger] cs[k], self.dimension()),
            decreases cs.len() - j,
        {
            if chunks[j].vector.len() != self.dim {
                proof {
                    assert(!chunk_dim_ok(cs[j as int], self.dimension()));
                }
                return Err(Error::DimensionMismatch);
            }
            proof {
                assert(chunk_dim_ok(cs[j as int], self.dimension()));
            }
            j = j + 1;
        }
        let ghost old_rows = self.rows_view();
        let ghost old_next = self.next_seq;
        let ghost w = workspace_name@;
        let ghost wp = workspace_path@;
        let mut rest = chunks;
        let mut i: usize = 0;
        proof {
            vstd::std_specs::vec::axiom_spec_len(&rest);
            assert(cs.len() == rest@.len());
        }
        while rest.len() > 0
            invariant
                cs.len() <= usize::MAX,
                i + rest.len() == cs.len(),
                rest.deep_view() =~= cs.subrange(i as int, cs.len() as int),
                old_next + cs.len() <= u64::MAX,
                self.next_seq == old_next + i,
                self.dimension() == old(self).dimension(),
                self.rows_view().len() == old_rows.len() + i,
                self.rows_view().subrange(0, old_rows.len() as int) == old_rows,
                forall|k: int|
                    0 <= k < i ==> #[trigger] self.rows_view()[old_rows.len() + k] == record_for(
                        cs[k],
                        w,
                        wp,
                        self.rows_view()[old_rows.len() + k].id,
                    ),
                forall|k: int|
                    0 <= k < i ==> id_seq_part(
                        (#[trigger] self.rows_view()[old_rows.len() + k]).id,
                    ) == old_next + k,
                forall|k: int| 0 <= k < cs.len() ==> chunk_dim_ok(#[trigger] cs[k], self.dimension()),
                forall|k: int| 0 <= k < cs.len() ==> (#[trigger] cs[k]).text.len() > 0,
                self.wf(),
                w == workspace_name@,
                wp == workspace_path@,
            decreases rest.len(),
        {
            let ghost prev_rows = rest@;
            let ghost prev = rest.deep_view();
            let chunk = rest.remove(0);
            proof {
                assert(chunk == prev_rows[0]);
                assert(prev[0] == prev_rows[0].deep_view());
                assert(chunk@ == cs[i as int]);
                assert forall|k: int| 0 <= k < rest@.len() implies #[trigger] rest.deep_view()[k]
                    == prev[k + 1] by {
                    assert(rest@[k] == prev_rows[k + 1]);
                }
                assert(rest.deep_view() =~= cs.subrange(i + 1, cs.len() as int));
            }
            let id = mint_id(self.next_seq);
            let row = Record {
                id,
                workspace_name: workspace_name.clone(),
                workspace_path: workspace_path.clone(),
                file_name: strip_verbatim_markers(chunk.file_name.as_str()),
                page_number: chunk.page_number,
                text: chunk.text,
                vector: chunk.vector,
            };
            proof {
                assert(row@ == record_for(cs[i as int], w, wp, id));
            }
            let ghost before = self.rows_view();
            let ghost before_rows = self.rows@;
            self.rows.push(row);
            self.next_seq = self.next_seq + 1;
            proof {
                assert forall|k: int| 0 <= k < self.rows@.len() implies #[trigger] self.rows_view()[k]
                    == before.push(row@)[k] by {
                    if k < before_rows.len() {
                        assert(self.rows@[k] == before_rows[k]);
                        assert(before[k] == before_rows[k].deep_view());
                    }
                }
                assert(self.rows_view() =~= before.push(row@));
                assert(self.rows_view().subrange(0, old_rows.len() as int) =~= old_rows);
            }
            i = i + 1;
        }
        Ok(())
    }

    /// Removal by filter keeps the table's invariant: every kept row stood in
    /// the table before.
    proof fn lemma_filter_keeps_wf(
        rows: Seq<RecordV>,
        pred: spec_fn(RecordV) -> bool,
        dim: int,
        next: u64,
    )
        requires
            forall|i: int| 0 <= i < rows.len() ==> (#[trigger] rows[i]).vector.len() == dim,
            forall|i: int| 0 <= i < rows.len() ==> (#[trigger] rows[i]).text.len() > 0,
            forall|i: int| 0 <= i < rows.len() ==> id_seq_part((#[trigger] rows[i]).id) < next,
            forall|i: int, j: int|
                0 <= i < j < rows.len() ==> (#[trigger] rows[i]).id != (#[trigger] rows[j]).id,
        ensures
            forall|i: int|
                0 <= i < rows.filter(pred).len() ==> (#[trigger] rows.filter(pred)[i]).vector.len()
                    == dim,
            forall|i: int|
                0 <= i < rows.filter(pred).len() ==> (#[trigger] rows.filter(pred)[i]).text.len()
                    > 0,
            forall|i: int|
                0 <= i < rows.filter(pred).len() ==> id_seq_part(
                    (#[trigger] rows.filter(pred)[i]).id,
                ) < next,
            forall|i: int, j: int|
                0 <= i < j < rows.filter(pred).len() ==> (#[trigger] rows.filter(pred)[i]).id
                    != (#[trigger] rows.filter(pred)[j]).id,
        decreases rows.len(),
    {
        reveal(Seq::filter);
        if rows.len() > 0 {
            let prefix = rows.drop_last();
            assert forall|i: int| 0 <= i < prefix.len() implies #[trigger] prefix[i]
                == rows[i] by {}
            Self::lemma_filter_keeps_wf(prefix, pred, dim, next);
            crate::search::lemma_filter_is_subset(prefix, pred);
            let f = rows.filter(pred);
            let fp = prefix.filter(pred);
            if pred(rows.last()) {
                assert(f =~= fp.push(rows.last()));
                assert forall|i: int, j: int| 0 <= i < j < f.len() implies (#[trigger] f[i]).id
                    != (#[trigger] f[j]).id by {
                    if j == f.len() - 1 {
                        assert(f[i] == fp[i]);
                        assert(prefix.contains(fp[i]));
                        let m = choose|m: int| 0 <= m < prefix.len() && prefix[m] == fp[i];
                        assert(rows[m] == f[i]);
                        assert(rows[m].id != rows[rows.len() - 1].id);
                    }
                }
            }
        }
    }

    /// Removes every row the delete filter matches, in place, keeping order.
    fn retain_rows(&mut self, workspace_name: &String, file_name: Option<&String>)
        requires
            old(self).wf(),
        ensures
            final(self).wf(),
            final(self).rows_view() == rows_after_delete(
                old(self).rows_view(),
                workspace_name@,
                match file_name {
                    Some(f) => Some(f@),
                    None => None,
                },
            ),
            final(self).next_sequence() == old(self).next_sequence(),
            final(self).dimension() == old(self).dimension(),
    {
        let ghost s = self.rows_view();
        let ghost fname: Option<Seq<char>> = match file_name {
            Some(f) => Some(f@),
            None => None,
        };
        let ghost w = workspace_name@;
        let mut kept: Vec<Record> = Vec::new();
        let mut i: usize = 0;
        proof {
            vstd::std_specs::vec::axiom_spec_len(&self.rows);
            assert(s.len() == self.rows@.len());
            reveal(Seq::filter);
            assert(kept.deep_view() =~= rows_after_delete(s.subrange(0, 0), w, fname));
        }
        while self.rows.len() > 0
            invariant
                s.len() <= usize::MAX,
                i + self.rows@.len() == s.len(),
                self.rows.deep_view() =~= s.subrange(i as int, s.len() as int),
                kept.deep_view() == rows_after_delete(s.subrange(0, i as int), w, fname),
                w == workspace_name@,
                fname == (match file_name {
                    Some(f) => Some(f@),
                    None => None,
                }),
                self.next_seq == old(self).next_seq,
                self.dim == old(self).dim,
            decreases self.rows@.len(),
        {
            let ghost prev_rows = self.rows@;
            let ghost prev = self.rows.deep_view();
            let x = self.rows.remove(0);
            proof {
                assert(x == prev_rows[0]);
                assert(prev[0] == prev_rows[0].deep_view());
                assert(x@ == s[i as int]);
                assert forall|k: int| 0 <= k < self.rows@.len() implies
                    #[trigger] self.rows.deep_view()[k] == prev[k + 1] by {
                    assert(self.rows@[k] == prev_rows[k + 1]);
                }
                assert(self.rows.deep_view() =~= s.subrange(i + 1, s.len() as int));
            }
            let name_matches = x.workspace_name == *workspace_name;
            let keep = match file_name {
                Some(f) => !(name_matches && x.file_name == *f),
                None => !name_matches,
            };
            proof {
                reveal(Seq::filter);
                assert(s.subrange(0, i + 1).drop_last() =~= s.subrange(0, i as int));
                assert(s.subrange(0, i + 1).last() == s[i as int]);
                assert(keep == !delete_matches(x@, w, fname));
            }
            if keep {
                kept.push(x);
                proof {
                    assert(kept.deep_view() =~= rows_after_delete(
                        s.subrange(0, i as int),
                        w,
                        fname,
                    ).push(s[i as int]));
                }
            }
            i = i + 1;
        }
        self.rows = kept;
        proof {
            assert(s.subrange(0, s.len() as int) =~= s);
            Self::lemma_filter_keeps_wf(
                s,
                |r: RecordV| !delete_matches(r, w, fname),
                old(self).dimension(),
                old(self).next_seq,
            );
        }
    }

    /// Deletes every row of the named workspace; rows of other workspaces
    /// stay, in order.
    pub fn delete_workspace(&mut self, workspace_name: &String)
        requires
            old(self).wf(),
        ensures
            final(self).wf(),
            final(self).rows_view() == rows_after_delete(
                old(self).rows_view(),
                workspace_name@,
                None,
            ),
            final(self).next_sequence() == old(self).next_sequence(),
            final(self).dimension() == old(self).dimension(),
    {
        self.retain_rows(workspace_name, None);
    }

    /// Deletes every row of the given file within the workspace; all other
    /// rows stay, in order.
    pub fn delete_file(&mut self, workspace_name: &String, file_name: &String)
        requires
            old(self).wf(),
        ensures
            final(self).wf(),
            final(self).rows_view() == rows_after_delete(
                old(self).rows_view(),
                workspace_name@,
                Some(file_name@),
            ),
            final(self).next_sequence() == old(self).next_sequence(),
            final(self).dimension() == old(self).dimension(),
    {
        self.retain_rows(workspace_name, Some(file_name));
    }

    /// Copies out the rows of the workspace that match the optional context
    /// file list, in storage order: what a workspace-filtered query returns.
    pub fn workspace_rows(&self, workspace_name: &String, context_files: &Vec<String>) -> (r: Vec<
        Record,
    >)
        ensures
            r.deep_view() == matching_rows(
                self.rows_view(),
                workspace_name@,
                context_files.deep_view(),
            ),
            r.deep_view().len() <= self.rows_view().len(),
    {
        let ghost s = self.rows_view();
        let ghost w = workspace_name@;
        let ghost ctx = context_files.deep_view();
        let ghost pred = |rv: RecordV| row_matches_filter(rv, w, ctx);
        let mut out: Vec<Record> = Vec::new();
        let mut k: usize = 0;
        proof {
            vstd::std_specs::vec::axiom_spec_len(&self.rows);
            assert(s.len() == self.rows@.len());
            reveal(Seq::filter);
            assert(out.deep_view() =~= s.subrange(0, 0).filter(pred));
            s.lemma_filter_len(pred);
        }
        while k < self.rows.len()
            invariant
                k <= s.len(),
                s == self.rows_view(),
                s.len() == self.rows@.len(),
                out.deep_view() == s.subrange(0, k as int).filter(pred),
                pred == (|rv: RecordV| row_matches_filter(rv, w, ctx)),
                w == workspace_name@,
                ctx == context_files.deep_view(),
            decreases s.len() - k,
        {
            let row = &self.rows[k];
            proof {
                assert(row@ == s[k as int]);
            }
            let in_workspace = row.workspace_name == *workspace_name;
            let in_context = context_files.len() == 0 || crate::search::contains_string(
                context_files,
                &row.file_name,
            );
            proof {
                reveal(Seq::filter);
                assert(s.subrange(0, k + 1).drop_last() =~= s.subrange(0, k as int));
                assert(s.subrange(0, k + 1).last() == s[k as int]);
                assert((in_workspace && in_context) == pred(s[k as int]));
            }
            if in_workspace && in_context {
                let copy = row.duplicate();
                out.push(copy);
                proof {
                    assert(out.deep_view() =~= s.subrange(0, k as int).filter(pred).push(
                        s[k as int],
                    ));
                }
            }
            k = k + 1;
        }
        proof {
            assert(s.subrange(0, s.len() as int) =~= s);
            s.lemma_filter_len(pred);
        }
        out
    }
}

/// In a well-formed table every row id is distinct from every other: each
/// ingested row's id is unique across its batch and across repeated calls.
pub proof fn lemma_ids_unique(t: Table)
    requires
        t.wf(),
    ensures
        forall|i: int, j: int|
            0 <= i < j < t.rows_view().len() ==> (#[trigger] t.rows_view()[i]).id
                != (#[trigger] t.rows_view()[j]).id,
{
}

/// The row falls to a delete of workspace `w`, narrowed to one file where a
/// file path is given.
pub open spec fn delete_matches(r: RecordV, w: Seq<char>, f: Option<Seq<char>>) -> bool {
    r.workspace_name == w && (match f {
        Some(fname) => r.file_name == fname,
        None => true,
    })
}

/// The rows that survive a delete of workspace `w` (narrowed to one file
/// where a path is given), in order.
pub open spec fn rows_after_delete(
    rows: Seq<RecordV>,
    w: Seq<char>,
    f: Option<Seq<char>>,
) -> Seq<RecordV> {
    rows.filter(|r: RecordV| !delete_matches(r, w, f))
}

} // verus!
