//! A plain-data model of the block registry: the mapping between
//! namespaced block-state strings and dense numeric state ids. The codec
//! treats the registry as read-only reference data; the surrounding glue
//! fills one in from whatever block catalogue the host provides.

use vstd::prelude::*;
use vstd::string::StringExecFns;

use crate::blockstate::{
    parse_block_state_string, spec_pair_views, spec_parse_name, spec_parse_props,
};
use crate::strutil::str_eq;

verus! {

/// One concrete state of a block: its dense id and its property pairs in
/// the registry's canonical order.
pub struct BlockState {
    pub id: u16,
    pub props: Vec<(String, String)>,
}

/// One block: its namespaced name, its default state id, and all of its
/// states.
pub struct BlockDef {
    pub name: String,
    pub default_state: u16,
    pub states: Vec<BlockState>,
}

/// The whole registry, plus the state id that means air.
pub struct BlockRegistry {
    pub blocks: Vec<BlockDef>,
    pub air_state: u16,
}

/// The first block carrying `name`.
pub open spec fn spec_lookup_block(blocks: Seq<BlockDef>, name: Seq<char>) -> Option<BlockDef>
    decreases blocks.len(),
{
    if blocks.len() == 0 {
        None
    } else if blocks[0].name@ == name {
        Some(blocks[0])
    } else {
        spec_lookup_block(blocks.drop_first(), name)
    }
}

/// The first state in `states` with id `id`.
pub open spec fn spec_find_state_in(states: Seq<BlockState>, id: u16) -> Option<BlockState>
    decreases states.len(),
{
    if states.len() == 0 {
        None
    } else if states[0].id == id {
        Some(states[0])
    } else {
        spec_find_state_in(states.drop_first(), id)
    }
}

/// The first block holding a state with id `id`, with that state.
pub open spec fn spec_lookup_state(blocks: Seq<BlockDef>, id: u16) -> Option<(BlockDef,
    BlockState)>
    decreases blocks.len(),
{
    if blocks.len() == 0 {
        None
    } else {
        match spec_find_state_in(blocks[0].states@, id) {
            Some(st) => Some((blocks[0], st)),
            None => spec_lookup_state(blocks.drop_first(), id),
        }
    }
}

/// Membership of one property pair in a pair list.
pub open spec fn spec_props_contains(ps: Seq<(Seq<char>, Seq<char>)>, p: (Seq<char>, Seq<
    char>)) -> bool {
    exists|i: int| 0 <= i < ps.len() && ps[i] == p
}

/// Order-insensitive equality of two property lists: same length and each
/// pair of one occurs in the other.
pub open spec fn spec_props_match(a: Seq<(Seq<char>, Seq<char>)>, b: Seq<(Seq<char>, Seq<
    char>)>) -> bool {
    &&& a.len() == b.len()
    &&& forall|i: int| 0 <= i < a.len() ==> spec_props_contains(b, a[i])
    &&& forall|i: int| 0 <= i < b.len() ==> spec_props_contains(a, b[i])
}

/// The id of the first state whose property list matches `props`.
pub open spec fn spec_find_matching_state(states: Seq<BlockState>, props: Seq<(Seq<char>, Seq<
    char>)>) -> Option<u16>
    decreases states.len(),
{
    if states.len() == 0 {
        None
    } else if spec_props_match(spec_pair_views(states[0].props@), props) {
        Some(states[0].id)
    } else {
        spec_find_matching_state(states.drop_first(), props)
    }
}

/// What resolving a block-state string returns: `None` for an unknown
/// block name; the default state when no properties were given or the
/// block has at most one state; the matching state when the given property
/// combination resolves; and the default state again when it does not
/// (the lossy-but-non-fatal degradation policy).
pub open spec fn spec_resolve_block_state(reg: BlockRegistry, s: Seq<char>) -> Option<u16> {
    let name = spec_parse_name(s);
    let props = spec_parse_props(s);
    match spec_lookup_block(reg.blocks@, name) {
        None => None,
        Some(b) => if props.len() == 0 || b.states@.len() <= 1 {
            Some(b.default_state)
        } else {
            match spec_find_matching_state(b.states@, props) {
                Some(id) => Some(id),
                None => Some(b.default_state),
            }
        },
    }
}

/// The `k1=v1,k2=v2,...` body from property index `i` on.
pub open spec fn spec_props_string_from(props: Seq<(Seq<char>, Seq<char>)>, i: int) -> Seq<char>
    decreases props.len() - i,
{
    if i < 0 || i >= props.len() {
        Seq::empty()
    } else if i == props.len() - 1 {
        props[i].0 + seq!['='] + props[i].1
    } else {
        props[i].0 + seq!['='] + props[i].1 + seq![','] + spec_props_string_from(props, i + 1)
    }
}

/// The canonical text of a name with a property list.
pub open spec fn spec_state_string(name: Seq<char>, props: Seq<(Seq<char>, Seq<char>)>) -> Seq<
    char> {
    if props.len() == 0 {
        name
    } else {
        name + seq!['['] + spec_props_string_from(props, 0) + seq![']']
    }
}

/// What building the text for a state id returns: `None` for an id no
/// block state carries; the bare name for a block with at most one state;
/// else the name with the state's own ordered property list.
pub open spec fn spec_build_block_state(reg: BlockRegistry, id: u16) -> Option<Seq<char>> {
    match spec_lookup_state(reg.blocks@, id) {
        None => None,
        Some((b, st)) => if b.states@.len() <= 1 {
            Some(b.name@)
        } else {
            Some(spec_state_string(b.name@, spec_pair_views(st.props@)))
        },
    }
}

/// Consistency of one registry entry: the text built for `id` resolves
/// back to `id`. A real block catalogue satisfies this for every state it
/// lists; it is the hypothesis the encode/decode round trip rests on.
pub open spec fn spec_resolves_built(reg: BlockRegistry, id: u16) -> bool {
    match spec_build_block_state(reg, id) {
        Some(text) => spec_resolve_block_state(reg, text) == Some(id),
        None => false,
    }
}

/// Whether `ps` holds the pair `(key, value)`.
fn props_contains(ps: &Vec<(String, String)>, key: &str, value: &str) -> (r: bool)
    ensures
        r == spec_props_contains(spec_pair_views(ps@), (key@, value@)),
{
    let n = ps.len();
    let mut i: usize = 0;
    while i < n
        invariant
            n == ps@.len(),
            i <= n,
            forall|k: int| 0 <= k < i ==> spec_pair_views(ps@)[k] != (key@, value@),
        decreases n - i,
    {
        if str_eq(ps[i].0.as_str(), key) && str_eq(ps[i].1.as_str(), value) {
            proof {
                assert(spec_pair_views(ps@)[i as int] == (key@, value@));
            }
            return true;
        }
        i = i + 1;
    }
    false
}

/// Order-insensitive comparison of two property lists.
fn props_match(a: &Vec<(String, String)>, b: &Vec<(String, String)>) -> (r: bool)
    ensures
        r == spec_props_match(spec_pair_views(a@), spec_pair_views(b@)),
{
    if a.len() != b.len() {
        return false;
    }
    let n = a.len();
    let mut i: usize = 0;
    while i < n
        invariant
            n == a@.len() == b@.len(),
            i <= n,
            forall|k: int|
                0 <= k < i ==> spec_props_contains(spec_pair_views(b@), spec_pair_views(a@)[k]),
        decreases n - i,
    {
        if !props_contains(b, a[i].0.as_str(), a[i].1.as_str()) {
            proof {
                assert(spec_pair_views(a@)[i as int] == (a@[i as int].0@, a@[i as int].1@));
            }
            return false;
        }
        i = i + 1;
    }
    let mut j: usize = 0;
    while j < n
        invariant
            n == a@.len() == b@.len(),
            j <= n,
            forall|k: int|
                0 <= k < n ==> spec_props_contains(spec_pair_views(b@), spec_pair_views(a@)[k]),
            forall|k: int|
                0 <= k < j ==> spec_props_contains(spec_pair_views(a@), spec_pair_views(b@)[k]),
        decreases n - j,
    {
        if !props_contains(a, b[j].0.as_str(), b[j].1.as_str()) {
            proof {
                assert(spec_pair_views(b@)[j as int] == (b@[j as int].0@, b@[j as int].1@));
            }
            return false;
        }
        j = j + 1;
    }
    true
}

impl BlockRegistry {
    /// The index of the first block carrying `name`.
    fn find_block(&self, name: &str) -> (r: Option<usize>)
        ensures
            match r {
                Some(i) => i < self.blocks@.len() && spec_lookup_block(self.blocks@, name@)
                    == Some(self.blocks@[i as int]),
                None => spec_lookup_block(self.blocks@, name@) is None,
            },
    {
        let n = self.blocks.len();
        let mut i: usize = 0;
        proof {
            assert(self.blocks@.subrange(0, n as int) =~= self.blocks@);
        }
        while i < n
            invariant
                n == self.blocks@.len(),
                i <= n,
                spec_lookup_block(self.blocks@, name@) == spec_lookup_block(
                    self.blocks@.subrange(i as int, n as int),
                    name@,
                ),
            decreases n - i,
        {
            proof {
                let sub = self.blocks@.subrange(i as int, n as int);
                assert(sub[0] == self.blocks@[i as int]);
                assert(sub.drop_first() =~= self.blocks@.subrange(i as int + 1, n as int));
            }
            if str_eq(self.blocks[i].name.as_str(), name) {
                return Some(i);
            }
            i = i + 1;
        }
        proof {
            assert(self.blocks@.subrange(n as int, n as int) =~= Seq::<BlockDef>::empty());
        }
        None
    }

    /// The indices of the first block and state carrying the id `id`.
    fn find_state(&self, id: u16) -> (r: Option<(usize, usize)>)
        ensures
            match r {
                Some(p) => {
                    &&& p.0 < self.blocks@.len()
                    &&& p.1 < self.blocks@[p.0 as int].states@.len()
                    &&& spec_lookup_state(self.blocks@, id) == Some(
                        (self.blocks@[p.0 as int], self.blocks@[p.0 as int].states@[p.1 as int]),
                    )
                },
                None => spec_lookup_state(self.blocks@, id) is None,
            },
    {
        let n = self.blocks.len();
        let mut i: usize = 0;
        proof {
            assert(self.blocks@.subrange(0, n as int) =~= self.blocks@);
        }
        while i < n
            invariant
                n == self.blocks@.len(),
                i <= n,
                spec_lookup_state(self.blocks@, id) == spec_lookup_state(
                    self.blocks@.subrange(i as int, n as int),
                    id,
                ),
            decreases n - i,
        {
            proof {
                let sub = self.blocks@.subrange(i as int, n as int);
                assert(sub[0] == self.blocks@[i as int]);
                assert(sub.drop_first() =~= self.blocks@.subrange(i as int + 1, n as int));
            }
            let states = &self.blocks[i].states;
            let m = states.len();
            let mut j: usize = 0;
            proof {
                assert(states@.subrange(0, m as int) =~= states@);
            }
            while j < m
                invariant
                    n == self.blocks@.len(),
                    i < n,
                    m == states@.len(),
                    j <= m,
                    states == self.blocks@[i as int].states,
                    spec_lookup_state(self.blocks@, id) == spec_lookup_state(
                        self.blocks@.subrange(i as int, n as int),
                        id,
                    ),
                    spec_find_state_in(states@, id) == spec_find_state_in(
                        states@.subrange(j as int, m as int),
                        id,
                    ),
                decreases m - j,
            {
                proof {
                    let sub = states@.subrange(j as int, m as int);
                    assert(sub[0] == states@[j as int]);
                    assert(sub.drop_first() =~= states@.subrange(j as int + 1, m as int));
                }
                if states[j].id == id {
                    proof {
                        let bsub = self.blocks@.subrange(i as int, n as int);
                        assert(bsub[0] == self.blocks@[i as int]);
                        assert(spec_find_state_in(states@, id) == Some(states@[j as int]));
                    }
                    return Some((i, j));
                }
                j = j + 1;
            }
            proof {
                assert(states@.subrange(m as int, m as int) =~= Seq::<BlockState>::empty());
            }
            i = i + 1;
        }
        proof {
            assert(self.blocks@.subrange(n as int, n as int) =~= Seq::<BlockDef>::empty());
        }
        None
    }
}

/// The id of the first state of `states` whose property list matches.
fn find_matching_state(states: &Vec<BlockState>, props: &Vec<(String, String)>) -> (r: Option<
    u16>)
    ensures
        r == spec_find_matching_state(states@, spec_pair_views(props@)),
{
    let n = states.len();
    let mut i: usize = 0;
    proof {
        assert(states@.subrange(0, n as int) =~= states@);
    }
    while i < n
        invariant
            n == states@.len(),
            i <= n,
            spec_find_matching_state(states@, spec_pair_views(props@)) == spec_find_matching_state(
                states@.subrange(i as int, n as int),
                spec_pair_views(props@),
            ),
        decreases n - i,
    {
        proof {
            let sub = states@.subrange(i as int, n as int);
            assert(sub[0] == states@[i as int]);
            assert(sub.drop_first() =~= states@.subrange(i as int + 1, n as int));
        }
        if props_match(&states[i].props, props) {
            return Some(states[i].id);
        }
        i = i + 1;
    }
    proof {
        assert(states@.subrange(n as int, n as int) =~= Seq::<BlockState>::empty());
    }
    None
}

/// Resolve a block-state string from a schematic palette to a state id.
/// `None` means an unknown block name; a property combination the registry
/// cannot resolve falls back to the block's default state instead of
/// failing.
pub fn resolve_block_state(reg: &BlockRegistry, s: &str) -> (r: Option<u16>)
    ensures
        r == spec_resolve_block_state(*reg, s@),
{
    let (name, props) = parse_block_state_string(s);
    match reg.find_block(name.as_str()) {
        None => None,
        Some(bi) => {
            let block = &reg.blocks[bi];
            if props.len() == 0 || block.states.len() <= 1 {
                Some(block.default_state)
            } else {
                match find_matching_state(&block.states, &props) {
                    Some(id) => Some(id),
                    None => Some(block.default_state),
                }
            }
        },
    }
}

/// Build the canonical palette text for a state id: the block's name, with
/// the state's property list in registry order when the block has more
/// than one state. `None` means no block state carries the id.
pub fn build_block_state_string(reg: &BlockRegistry, state_id: u16) -> (r: Option<String>)
    ensures
        match r {
            Some(text) => spec_build_block_state(*reg, state_id) == Some(text@),
            None => spec_build_block_state(*reg, state_id) is None,
        },
{
    match reg.find_state(state_id) {
        None => None,
        Some((bi, si)) => {
            let block = &reg.blocks[bi];
            if block.states.len() <= 1 {
                return Some(block.name.clone());
            }
            let st = &block.states[si];
            let nprops = st.props.len();
            if nprops == 0 {
                return Some(block.name.clone());
            }
            let mut out = block.name.clone();
            out.append("[");
            proof {
                reveal_strlit("[");
                assert(out@ =~= block.name@ + seq!['[']);
            }
            let ghost pviews = spec_pair_views(st.props@);
            let mut i: usize = 0;
            while i < nprops
                invariant
                    nprops == st.props@.len(),
                    pviews == spec_pair_views(st.props@),
                    nprops >= 1,
                    i <= nprops,
                    out@ + spec_props_string_from(pviews, i as int) == block.name@ + seq!['[']
                        + spec_props_string_from(pviews, 0),
                decreases nprops - i,
            {
                out.append(st.props[i].0.as_str());
                out.append("=");
                out.append(st.props[i].1.as_str());
                proof {
                    reveal_strlit("=");
                    assert(pviews[i as int] == (st.props@[i as int].0@, st.props@[i as int].1@));
                }
                if i + 1 < nprops {
                    out.append(",");
                    proof {
                        reveal_strlit(",");
                        assert(out@ + spec_props_string_from(pviews, i + 1 as int) =~= block.name@
                            + seq!['['] + spec_props_string_from(pviews, 0));
                    }
                } else {
                    proof {
                        assert(spec_props_string_from(pviews, i + 1 as int) =~= Seq::<
                            char>::empty());
                        assert(out@ + spec_props_string_from(pviews, i + 1 as int) =~= block.name@
                            + seq!['['] + spec_props_string_from(pviews, 0));
                    }
                }
                i = i + 1;
            }
            out.append("]");
            proof {
                reveal_strlit("]");
                assert(out@ + Seq::<char>::empty() =~= out@);
                assert(out@ =~= block.name@ + seq!['['] + spec_props_string_from(pviews, 0)
                    + seq![']']);
                assert(spec_state_string(block.name@, pviews) == block.name@ + seq!['[']
                    + spec_props_string_from(pviews, 0) + seq![']']);
            }
            Some(out)
        },
    }
}

/// Whether no two blocks share a name.
pub open spec fn spec_names_distinct(blocks: Seq<BlockDef>) -> bool {
    forall|i: int, j: int|
        0 <= i < j < blocks.len() ==> (#[trigger] blocks[i]).name@ != (#[trigger] blocks[j]).name@
}

/// Whether no block before `bi` carries a state with id `id`.
pub open spec fn spec_id_first_in(blocks: Seq<BlockDef>, bi: int, id: u16) -> bool {
    forall|j: int| 0 <= j < bi ==> spec_find_state_in((#[trigger] blocks[j]).states@, id) is None
}

/// With distinct names, looking a block's own name up finds that block.
proof fn lemma_lookup_block_at(blocks: Seq<BlockDef>, bi: int)
    requires
        spec_names_distinct(blocks),
        0 <= bi < blocks.len(),
    ensures
        spec_lookup_block(blocks, blocks[bi].name@) == Some(blocks[bi]),
    decreases bi,
{
    if bi > 0 {
        assert(blocks[0].name@ != blocks[bi].name@);
        assert(spec_names_distinct(blocks.drop_first())) by {
            assert(forall|i: int, j: int|
                0 <= i < j < blocks.drop_first().len() ==> (#[trigger] blocks.drop_first()[i])
                    == blocks[i + 1] && (#[trigger] blocks.drop_first()[j]) == blocks[j + 1]);
        }
        assert(blocks.drop_first()[bi - 1] == blocks[bi]);
        lemma_lookup_block_at(blocks.drop_first(), bi - 1);
    }
}

/// Looking a state id up lands on the first block that carries it.
proof fn lemma_lookup_state_at(blocks: Seq<BlockDef>, bi: int, id: u16)
    requires
        0 <= bi < blocks.len(),
        spec_id_first_in(blocks, bi, id),
        spec_find_state_in(blocks[bi].states@, id) is Some,
    ensures
        spec_lookup_state(blocks, id) == Some(
            (blocks[bi], spec_find_state_in(blocks[bi].states@, id)->Some_0),
        ),
    decreases bi,
{
    if bi > 0 {
        assert(spec_find_state_in(blocks[0].states@, id) is None);
        assert(spec_id_first_in(blocks.drop_first(), bi - 1, id)) by {
            assert(forall|j: int|
                0 <= j < bi - 1 ==> (#[trigger] blocks.drop_first()[j]) == blocks[j + 1]);
        }
        assert(blocks.drop_first()[bi - 1] == blocks[bi]);
        lemma_lookup_state_at(blocks.drop_first(), bi - 1, id);
    }
}

/// A single-state block whose default is its one state, whose name holds
/// no bracket, and whose id no earlier block carries, resolves its own
/// canonical text: the bare name comes back as the default state.
pub proof fn lemma_single_state_resolves_built(reg: BlockRegistry, bi: int)
    requires
        spec_names_distinct(reg.blocks@),
        0 <= bi < reg.blocks@.len(),
        reg.blocks@[bi].states@.len() == 1,
        reg.blocks@[bi].default_state == reg.blocks@[bi].states@[0].id,
        forall|i: int|
            0 <= i < reg.blocks@[bi].name@.len() ==> (#[trigger] reg.blocks@[bi].name@[i]) != '[',
        spec_id_first_in(reg.blocks@, bi, reg.blocks@[bi].states@[0].id),
    ensures
        spec_resolves_built(reg, reg.blocks@[bi].states@[0].id),
{
    let b = reg.blocks@[bi];
    let id = b.states@[0].id;
    assert(spec_find_state_in(b.states@, id) == Some(b.states@[0]));
    lemma_lookup_state_at(reg.blocks@, bi, id);
    assert(spec_build_block_state(reg, id) == Some(b.name@));
    crate::blockstate::lemma_parse_plain_name(b.name@);
    lemma_lookup_block_at(reg.blocks@, bi);
    assert(spec_resolve_block_state(reg, b.name@) == Some(b.default_state));
}

/// Looking an id up inside a block lands on the first state carrying it.
proof fn lemma_find_state_at(states: Seq<BlockState>, si: int, id: u16)
    requires
        0 <= si < states.len(),
        states[si].id == id,
        forall|t: int| 0 <= t < si ==> (#[trigger] states[t]).id != id,
    ensures
        spec_find_state_in(states, id) == Some(states[si]),
    decreases si,
{
    if si > 0 {
        assert(forall|t: int|
            0 <= t < si - 1 ==> (#[trigger] states.drop_first()[t]) == states[t + 1]);
        assert(states.drop_first()[si - 1] == states[si]);
        lemma_find_state_at(states.drop_first(), si - 1, id);
    }
}

/// Matching a state's own property list finds that state first, when no
/// earlier state's list matches it.
proof fn lemma_find_matching_at(states: Seq<BlockState>, si: int, props: Seq<(Seq<char>, Seq<
    char>)>)
    requires
        0 <= si < states.len(),
        spec_props_match(spec_pair_views(states[si].props@), props),
        forall|t: int|
            0 <= t < si ==> !spec_props_match(spec_pair_views((#[trigger] states[t]).props@),
            props),
    ensures
        spec_find_matching_state(states, props) == Some(states[si].id),
    decreases si,
{
    if si > 0 {
        assert(forall|t: int|
            0 <= t < si - 1 ==> (#[trigger] states.drop_first()[t]) == states[t + 1]);
        assert(states.drop_first()[si - 1] == states[si]);
        lemma_find_matching_at(states.drop_first(), si - 1, props);
    }
}

/// A state of a block with several states resolves its own canonical
/// text, provided the registry is structurally sound around it: distinct
/// block names, a bracket-free name, a non-empty plain property list, no
/// earlier block carrying the id, no earlier state of the same block
/// carrying the id, and no other state of the block whose property list
/// matches this one's.
pub proof fn lemma_multi_state_resolves_built(reg: BlockRegistry, bi: int, si: int)
    requires
        spec_names_distinct(reg.blocks@),
        0 <= bi < reg.blocks@.len(),
        reg.blocks@[bi].states@.len() > 1,
        0 <= si < reg.blocks@[bi].states@.len(),
        forall|i: int|
            0 <= i < reg.blocks@[bi].name@.len() ==> (#[trigger] reg.blocks@[bi].name@[i]) != '[',
        crate::blockstate::spec_plain_props(spec_pair_views(reg.blocks@[bi].states@[si].props@)),
        reg.blocks@[bi].states@[si].props@.len() >= 1,
        spec_id_first_in(reg.blocks@, bi, reg.blocks@[bi].states@[si].id),
        forall|t: int|
            0 <= t < si ==> (#[trigger] reg.blocks@[bi].states@[t]).id
                != reg.blocks@[bi].states@[si].id,
        forall|t: int|
            0 <= t < reg.blocks@[bi].states@.len() && t != si ==> !spec_props_match(
                spec_pair_views((#[trigger] reg.blocks@[bi].states@[t]).props@),
                spec_pair_views(reg.blocks@[bi].states@[si].props@),
            ),
    ensures
        spec_resolves_built(reg, reg.blocks@[bi].states@[si].id),
{
    let b = reg.blocks@[bi];
    let st = b.states@[si];
    let id = st.id;
    let pviews = spec_pair_views(st.props@);
    lemma_find_state_at(b.states@, si, id);
    lemma_lookup_state_at(reg.blocks@, bi, id);
    assert(spec_build_block_state(reg, id) == Some(spec_state_string(b.name@, pviews)));
    assert(pviews.len() == st.props@.len());
    crate::blockstate::lemma_parse_built(b.name@, pviews);
    lemma_lookup_block_at(reg.blocks@, bi);
    // A list matches itself.
    assert(spec_props_match(pviews, pviews)) by {
        assert(forall|i: int|
            0 <= i < pviews.len() ==> spec_props_contains(pviews, #[trigger] pviews[i]));
    }
    lemma_find_matching_at(b.states@, si, pviews);
    assert(spec_resolve_block_state(reg, spec_state_string(b.name@, pviews)) == Some(id));
}

} // verus!
