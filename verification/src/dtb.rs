//! The summary of a flattened device tree: the memory region and the virtio
//! MMIO regions.
//!
//! The tree itself is read by `hermit_dtb`; this module decides which nodes
//! matter and decodes their `reg` properties.
use vstd::prelude::*;
use vstd::string::{StrSliceExecFns, StringExecFns};
use hermit_dtb::Dtb;
use crate::bytes::{be_value, lemma_be_value_push, lemma_be_value_prefix_monotone};

verus! {

#[verifier::external_type_specification]
#[verifier::external_body]
pub struct ExDtb<'a>(Dtb<'a>);

/// The subnode names that `hermit_dtb` enumerates under a query path. The
/// domain holds the paths on which the enumeration runs to its end: on a
/// malformed structure block (an unknown token, a truncated token or name, a
/// name that is not UTF-8) the walk panics, and `enum_subnodes` asserts a
/// nonempty path.
pub uninterp spec fn dtb_subnodes(dtb: Dtb) -> Map<Seq<char>, Seq<Seq<char>>>;

/// What `hermit_dtb` finds for a query path and property name: the property
/// data, or `None` when the node has no such property. The domain holds the
/// pairs on which the lookup runs to its end without panicking.
pub uninterp spec fn dtb_properties(dtb: Dtb) -> Map<(Seq<char>, Seq<char>), Option<Seq<u8>>>;

/// The queries that summarising the tree makes all run to their end: the
/// root's subnodes, the `reg` property of each `memory` node, the subnodes of
/// each `soc` node, and the `reg` property of each of their `virtio_mmio@`
/// children.
pub open spec fn dtb_walkable(dtb: Dtb) -> bool {
    &&& dtb_subnodes(dtb).dom().contains("/"@)
    &&& forall|i: int|
        0 <= i < dtb_subnodes(dtb)["/"@].len() ==> root_walkable(dtb, #[trigger] dtb_subnodes(dtb)["/"@][i])
}

/// The queries that summarising the root node `name` makes run to their end.
pub open spec fn root_walkable(dtb: Dtb, name: Seq<char>) -> bool {
    let path = child_path("/"@, name);
    &&& has_prefix(name, "memory"@) ==> dtb_properties(dtb).dom().contains((path, "reg"@))
    &&& has_prefix(name, "soc"@) ==> {
        &&& dtb_subnodes(dtb).dom().contains(path)
        &&& forall|j: int|
            0 <= j < dtb_subnodes(dtb)[path].len() && has_prefix(dtb_subnodes(dtb)[path][j], "virtio_mmio@"@)
                ==> dtb_properties(dtb).dom().contains((child_path(path, #[trigger] dtb_subnodes(dtb)[path][j]), "reg"@))
    }
}

/// Calls `hermit_dtb::Dtb::enum_subnodes` and collects the names it yields.
/// The contract claims that the names are those that the tree holds under
/// `path`; which names those are is left to `dtb_subnodes`. The call is only
/// made on a path whose enumeration runs to its end.
#[verifier::external_body]
fn subnode_names(dtb: &Dtb, path: &str) -> (r: Vec<String>)
    requires
        dtb_subnodes(*dtb).dom().contains(path@),
    ensures
        r@.map_values(|s: String| s@) == dtb_subnodes(*dtb)[path@],
{
    dtb.enum_subnodes(path).map(String::from).collect()
}

/// Calls `hermit_dtb::Dtb::get_property` and copies the data it returns. The
/// contract claims that the result is what `dtb_properties` holds for the
/// pair; the call is only made on a pair whose lookup runs to its end.
#[verifier::external_body]
fn property(dtb: &Dtb, path: &str, name: &str) -> (r: Option<Vec<u8>>)
    requires
        dtb_properties(*dtb).dom().contains((path@, name@)),
    ensures
        r is Some <==> dtb_properties(*dtb)[(path@, name@)] is Some,
        r is Some ==> Some(r->0@) == dtb_properties(*dtb)[(path@, name@)],
{
    dtb.get_property(path, name).map(|data| data.to_vec())
}

/// The device tree could not be summarised.
#[derive(Debug, Clone, Copy, PartialEq, Eq, Structural)]
pub enum DtbError {
    FAIL,
}

impl DtbError {
    /// The text that the error prints as.
    pub fn message(&self) -> (r: String)
        ensures
            r@ == "Error:Fail"@,
    {
        String::from_str("Error:Fail")
    }
}

/// What the loader needs from the device tree.
pub struct DtbInfo {
    pub memory_addr: usize,
    pub memory_size: usize,
    pub mmio_regions: Vec<(usize, usize)>,
}

/// The abstract value of a [`DtbInfo`].
pub struct DtbSummary {
    pub memory_addr: usize,
    pub memory_size: usize,
    pub mmio_regions: Seq<(usize, usize)>,
}

impl View for DtbInfo {
    type V = DtbSummary;

    open spec fn view(&self) -> DtbSummary {
        DtbSummary {
            memory_addr: self.memory_addr,
            memory_size: self.memory_size,
            mmio_regions: self.mmio_regions@,
        }
    }
}

/// `prefix` is a prefix of `s`.
pub open spec fn has_prefix(s: Seq<char>, prefix: Seq<char>) -> bool {
    prefix.len() <= s.len() && s.subrange(0, prefix.len() as int) == prefix
}

/// The path of the node `name` under the node at `parent`.
pub open spec fn child_path(parent: Seq<char>, name: Seq<char>) -> Seq<char> {
    parent + name + "/"@
}

/// A `reg` property split into an address half and a size half, each read
/// big-endian; `None` when either does not fit in a machine word.
pub open spec fn reg_region(reg: Seq<u8>) -> Option<(usize, usize)> {
    let half = reg.len() / 2;
    let addr = be_value(reg.subrange(0, half as int));
    let size = be_value(reg.subrange(half as int, reg.len() as int));
    if addr <= usize::MAX && size <= usize::MAX {
        Some((addr as usize, size as usize))
    } else {
        None
    }
}

/// The summary after a `virtio_mmio@` node of the `soc` node at `soc_path`;
/// `None` when its `reg` property is missing or does not fit.
pub open spec fn soc_child_step(dtb: Dtb, soc_path: Seq<char>, acc: DtbSummary, child: Seq<char>) -> Option<DtbSummary> {
    if has_prefix(child, "virtio_mmio@"@) {
        let key = (child_path(soc_path, child), "reg"@);
        if dtb_properties(dtb)[key] is Some {
            match reg_region(dtb_properties(dtb)[key]->0) {
                Some(region) => Some(DtbSummary { mmio_regions: acc.mmio_regions.push(region), ..acc }),
                None => None,
            }
        } else {
            None
        }
    } else {
        Some(acc)
    }
}

/// The summary after the children `kids` of the `soc` node at `soc_path`.
pub open spec fn soc_summary(dtb: Dtb, soc_path: Seq<char>, acc: DtbSummary, kids: Seq<Seq<char>>) -> Option<DtbSummary>
    decreases kids.len(),
{
    if kids.len() == 0 {
        Some(acc)
    } else {
        match soc_summary(dtb, soc_path, acc, kids.drop_last()) {
            Some(before) => soc_child_step(dtb, soc_path, before, kids.last()),
            None => None,
        }
    }
}

/// The summary after the root node `name` as far as memory goes: a `memory`
/// node with a `reg` property sets the memory region.
pub open spec fn memory_step(dtb: Dtb, acc: DtbSummary, name: Seq<char>) -> Option<DtbSummary> {
    let key = (child_path("/"@, name), "reg"@);
    if has_prefix(name, "memory"@) && dtb_properties(dtb)[key] is Some {
        match reg_region(dtb_properties(dtb)[key]->0) {
            Some(region) => Some(DtbSummary { memory_addr: region.0, memory_size: region.1, ..acc }),
            None => None,
        }
    } else {
        Some(acc)
    }
}

/// The summary after the root node `name`: a `memory` node with a `reg`
/// property sets the memory region, then a `soc` node adds its virtio MMIO
/// regions.
pub open spec fn root_step(dtb: Dtb, acc: DtbSummary, name: Seq<char>) -> Option<DtbSummary> {
    let path = child_path("/"@, name);
    match memory_step(dtb, acc, name) {
        Some(m) => if has_prefix(name, "soc"@) {
            soc_summary(dtb, path, m, dtb_subnodes(dtb)[path])
        } else {
            Some(m)
        },
        None => None,
    }
}

/// The summary after the root nodes `names`, starting from an empty one.
pub open spec fn root_summary(dtb: Dtb, names: Seq<Seq<char>>) -> Option<DtbSummary>
    decreases names.len(),
{
    if names.len() == 0 {
        Some(DtbSummary { memory_addr: 0, memory_size: 0, mmio_regions: Seq::empty() })
    } else {
        match root_summary(dtb, names.drop_last()) {
            Some(before) => root_step(dtb, before, names.last()),
            None => None,
        }
    }
}

/// The summary of the whole tree: its root nodes in the order `hermit_dtb`
/// enumerates them; `None` when a region cannot be read.
pub open spec fn dtb_summary(dtb: Dtb) -> Option<DtbSummary> {
    root_summary(dtb, dtb_subnodes(dtb)["/"@])
}

/// Whether `s` starts with `prefix`.
pub fn starts_with(s: &str, prefix: &str) -> (r: bool)
    ensures
        r == has_prefix(s@, prefix@),
{
    let n = prefix.unicode_len();
    if n > s.unicode_len() {
        return false;
    }
    let mut i: usize = 0;
    while i < n
        invariant
            n == prefix@.len(),
            n <= s@.len(),
            i <= n,
            s@.subrange(0, i as int) == prefix@.subrange(0, i as int),
        decreases n - i,
    {
        if s.get_char(i) != prefix.get_char(i) {
            assert(s@.subrange(0, n as int)[i as int] != prefix@[i as int]);
            return false;
        }
        assert(s@.subrange(0, i + 1) =~= prefix@.subrange(0, i + 1));
        i = i + 1;
    }
    assert(prefix@.subrange(0, n as int) =~= prefix@);
    true
}

/// The path of the node `name` under the node at `parent`.
pub fn node_path(parent: &str, name: &str) -> (r: String)
    ensures
        r@ == child_path(parent@, name@),
{
    let mut path = String::from_str(parent);
    path.append(name);
    path.append("/");
    path
}

/// Whether `bytes[from..to]` spells, big-endian, a number that fits in a
/// machine word.
fn be_fits(bytes: &[u8], from: usize, to: usize) -> (r: bool)
    requires
        from <= to <= bytes@.len(),
    ensures
        r == (be_value(bytes@.subrange(from as int, to as int)) <= usize::MAX),
{
    let ghost part = bytes@.subrange(from as int, to as int);
    let mut value: usize = 0;
    let mut i = from;
    while i < to
        invariant
            from <= i <= to <= bytes@.len(),
            part == bytes@.subrange(from as int, to as int),
            value == be_value(part.subrange(0, i - from)),
        decreases to - i,
    {
        proof {
            lemma_be_value_push(part, i - from);
            assert(part[i - from] == bytes@[i as int]);
        }
        match value.checked_mul(256) {
            Some(shifted) => match shifted.checked_add(bytes[i] as usize) {
                Some(next) => value = next,
                None => {
                    proof { lemma_be_value_prefix_monotone(part, i - from + 1, part.len() as int); }
                    assert(part.subrange(0, part.len() as int) =~= part);
                    return false;
                }
            },
            None => {
                proof { lemma_be_value_prefix_monotone(part, i - from + 1, part.len() as int); }
                assert(part.subrange(0, part.len() as int) =~= part);
                return false;
            }
        }
        i = i + 1;
    }
    assert(part.subrange(0, to - from) =~= part);
    true
}

/// Split a `reg` property into its address half and its size half and read
/// each big-endian.
pub fn bytes_to_addr_size(bytes: &[u8]) -> (r: (usize, usize))
    requires
        reg_region(bytes@) is Some,
    ensures
        Some(r) == reg_region(bytes@),
        r.0 == reg_addr(bytes@),
        r.1 == reg_size(bytes@),
{
    proof {
        lemma_reg_region_exact(bytes@);
    }
    let ghost all = bytes@;
    let (addr_bytes, size_bytes) = bytes.split_at(bytes.len() / 2);
    let mut addr: usize = 0;
    let mut size: usize = 0;
    let mut i: usize = 0;
    while i < addr_bytes.len()
        invariant
            i <= addr_bytes@.len(),
            be_value(addr_bytes@) <= usize::MAX,
            addr == be_value(addr_bytes@.subrange(0, i as int)),
        decreases addr_bytes.len() - i,
    {
        proof {
            lemma_be_value_push(addr_bytes@, i as int);
            lemma_be_value_prefix_monotone(addr_bytes@, i + 1, addr_bytes@.len() as int);
            assert(addr_bytes@.subrange(0, addr_bytes@.len() as int) =~= addr_bytes@);
        }
        addr = 256 * addr + addr_bytes[i] as usize;
        i = i + 1;
    }
    assert(addr_bytes@.subrange(0, i as int) =~= addr_bytes@);
    let mut j: usize = 0;
    while j < size_bytes.len()
        invariant
            j <= size_bytes@.len(),
            be_value(size_bytes@) <= usize::MAX,
            size == be_value(size_bytes@.subrange(0, j as int)),
        decreases size_bytes.len() - j,
    {
        proof {
            lemma_be_value_push(size_bytes@, j as int);
            lemma_be_value_prefix_monotone(size_bytes@, j + 1, size_bytes@.len() as int);
            assert(size_bytes@.subrange(0, size_bytes@.len() as int) =~= size_bytes@);
        }
        size = 256 * size + size_bytes[j] as usize;
        j = j + 1;
    }
    assert(size_bytes@.subrange(0, j as int) =~= size_bytes@);
    (addr, size)
}

/// Decode a `reg` property, or `None` when a half does not fit in a word.
pub fn read_reg(bytes: &[u8]) -> (r: Option<(usize, usize)>)
    ensures
        r == reg_region(bytes@),
        r is Some <==> reg_addr(bytes@) <= usize::MAX && reg_size(bytes@) <= usize::MAX,
        r is Some ==> (r->0).0 == reg_addr(bytes@) && (r->0).1 == reg_size(bytes@),
{
    proof {
        lemma_reg_region_exact(bytes@);
    }
    let half = bytes.len() / 2;
    if be_fits(bytes, 0, half) && be_fits(bytes, half, bytes.len()) {
        Some(bytes_to_addr_size(bytes))
    } else {
        None
    }
}


/// Once a prefix of the root nodes fails to summarise, so does every longer one.
proof fn lemma_root_failure_sticks(dtb: Dtb, names: Seq<Seq<char>>, k: int)
    requires
        0 <= k <= names.len(),
        root_summary(dtb, names.take(k)) is None,
    ensures
        root_summary(dtb, names) is None,
    decreases names.len() - k,
{
    if k == names.len() {
        assert(names.take(k) =~= names);
    } else {
        assert(names.take(k + 1).drop_last() =~= names.take(k));
        lemma_root_failure_sticks(dtb, names, k + 1);
    }
}

/// Once a prefix of the children of a `soc` node fails to summarise, so does
/// every longer one.
proof fn lemma_soc_failure_sticks(dtb: Dtb, soc_path: Seq<char>, acc: DtbSummary, kids: Seq<Seq<char>>, k: int)
    requires
        0 <= k <= kids.len(),
        soc_summary(dtb, soc_path, acc, kids.take(k)) is None,
    ensures
        soc_summary(dtb, soc_path, acc, kids) is None,
    decreases kids.len() - k,
{
    if k == kids.len() {
        assert(kids.take(k) =~= kids);
    } else {
        assert(kids.take(k + 1).drop_last() =~= kids.take(k));
        lemma_soc_failure_sticks(dtb, soc_path, acc, kids, k + 1);
    }
}

/// Summarise the device tree: the `reg` property of the last `memory` node
/// that has one gives the memory region, and the `reg` properties of the
/// `virtio_mmio@` children of `soc` nodes give the MMIO regions, in the order
/// the tree lists them. Fails when a `virtio_mmio@` node has no `reg`
/// property or a region does not fit in a machine word.
pub fn parse_dtb_tree(dtb: &Dtb) -> (r: Result<DtbInfo, DtbError>)
    requires
        dtb_walkable(*dtb),
    ensures
        match r {
            Ok(info) => dtb_summary(*dtb) == Some(info@),
            Err(_) => dtb_summary(*dtb) is None,
        },
        r is Ok ==> summary_matches_tree(*dtb, r->Ok_0@),
{
    let mut dtb_info = DtbInfo { memory_addr: 0, memory_size: 0, mmio_regions: Vec::new() };
    assert(dtb_subnodes(*dtb).dom().contains("/"@));
    let roots = subnode_names(dtb, "/");
    let ghost names = roots@.map_values(|s: String| s@);
    assert(names.take(0) =~= Seq::<Seq<char>>::empty());
    let mut i: usize = 0;
    while i < roots.len()
        invariant
            names == roots@.map_values(|s: String| s@),
            names == dtb_subnodes(*dtb)["/"@],
            dtb_walkable(*dtb),
            i <= roots.len(),
            root_summary(*dtb, names.take(i as int)) == Some(dtb_info@),
        decreases roots.len() - i,
    {
        let node_name = &roots[i];
        let ghost before = dtb_info@;
        assert(names.take(i + 1).drop_last() =~= names.take(i as int));
        assert(names.take(i + 1).last() == node_name@);
        assert(names[i as int] == node_name@);
        assert(root_walkable(*dtb, names[i as int]));
        let path = node_path("/", node_name.as_str());
        if starts_with(node_name.as_str(), "memory") {
            assert(dtb_properties(*dtb).dom().contains((path@, "reg"@)));
            match property(dtb, path.as_str(), "reg") {
                Some(data) => match read_reg(data.as_slice()) {
                    Some((addr, size)) => {
                        dtb_info.memory_addr = addr;
                        dtb_info.memory_size = size;
                    },
                    None => {
                        proof {
                            lemma_root_failure_sticks(*dtb, names, i + 1);
                        }
                        return Err(DtbError::FAIL);
                    },
                },
                None => {},
            }
        }
        assert(memory_step(*dtb, before, node_name@) == Some(dtb_info@));
        if starts_with(node_name.as_str(), "soc") {
            let kids = subnode_names(dtb, path.as_str());
            let ghost kid_names = kids@.map_values(|s: String| s@);
            let ghost after_memory = dtb_info@;
            assert(root_step(*dtb, before, node_name@) == soc_summary(*dtb, path@, after_memory, kid_names));
            assert(kid_names.take(0) =~= Seq::<Seq<char>>::empty());
            let mut j: usize = 0;
            while j < kids.len()
                invariant
                    kid_names == kids@.map_values(|s: String| s@),
                    kid_names == dtb_subnodes(*dtb)[path@],
                    j <= kids.len(),
                    root_walkable(*dtb, node_name@),
                    has_prefix(node_name@, "soc"@),
                    path@ == child_path("/"@, node_name@),
                    soc_summary(*dtb, path@, after_memory, kid_names.take(j as int)) == Some(dtb_info@),
                    i < names.len(),
                    names == dtb_subnodes(*dtb)["/"@],
                    root_summary(*dtb, names.take(i + 1)) == root_step(*dtb, before, node_name@),
                    root_step(*dtb, before, node_name@) == soc_summary(*dtb, path@, after_memory, kid_names),
                decreases kids.len() - j,
            {
                let kid = &kids[j];
                assert(kid_names.take(j + 1).drop_last() =~= kid_names.take(j as int));
                assert(kid_names.take(j + 1).last() == kid@);
                if starts_with(kid.as_str(), "virtio_mmio@") {
                    let kid_path = node_path(path.as_str(), kid.as_str());
                    assert(kid_names[j as int] == kid@);
                    assert(dtb_subnodes(*dtb)[child_path("/"@, node_name@)][j as int] == kid@);
                    assert(dtb_properties(*dtb).dom().contains((kid_path@, "reg"@)));
                    match property(dtb, kid_path.as_str(), "reg") {
                        Some(data) => match read_reg(data.as_slice()) {
                            Some(region) => dtb_info.mmio_regions.push(region),
                            None => {
                                proof {
                                    lemma_soc_failure_sticks(*dtb, path@, after_memory, kid_names, j + 1);
                                    lemma_root_failure_sticks(*dtb, names, i + 1);
                                }
                                return Err(DtbError::FAIL);
                            },
                        },
                        None => {
                            proof {
                                lemma_soc_failure_sticks(*dtb, path@, after_memory, kid_names, j + 1);
                                lemma_root_failure_sticks(*dtb, names, i + 1);
                            }
                            return Err(DtbError::FAIL);
                        },
                    }
                }
                j = j + 1;
            }
            assert(kid_names.take(kids.len() as int) =~= kid_names);
        }
        i = i + 1;
    }
    assert(names.take(roots.len() as int) =~= names);
    proof {
        lemma_summary_matches_tree(*dtb);
    }
    Ok(dtb_info)
}


/// The number that the first half of a `reg` property spells, big-endian: the
/// region's address.
pub open spec fn reg_addr(reg: Seq<u8>) -> nat {
    be_value(reg.subrange(0, (reg.len() / 2) as int))
}

/// The number that the second half of a `reg` property spells, big-endian:
/// the region's size (the longer half when the length is odd).
pub open spec fn reg_size(reg: Seq<u8>) -> nat {
    be_value(reg.subrange((reg.len() / 2) as int, reg.len() as int))
}

/// Decoding a `reg` property succeeds exactly when both halves fit in a
/// machine word, and then gives the two numbers exactly, with nothing cut off.
pub proof fn lemma_reg_region_exact(reg: Seq<u8>)
    ensures
        reg_region(reg) is Some <==> reg_addr(reg) <= usize::MAX && reg_size(reg) <= usize::MAX,
        reg_region(reg) is Some ==> (reg_region(reg)->0).0 == reg_addr(reg) && (reg_region(reg)->0).1
            == reg_size(reg),
{
}

/// The paths of the `virtio_mmio@` nodes among `kids`, the children of the
/// node at `soc_path`, in tree order.
pub open spec fn virtio_paths_among(soc_path: Seq<char>, kids: Seq<Seq<char>>) -> Seq<Seq<char>>
    decreases kids.len(),
{
    if kids.len() == 0 {
        Seq::empty()
    } else {
        let before = virtio_paths_among(soc_path, kids.drop_last());
        if has_prefix(kids.last(), "virtio_mmio@"@) {
            before.push(child_path(soc_path, kids.last()))
        } else {
            before
        }
    }
}

/// The paths of the `virtio_mmio@` children of the `soc` nodes among the root
/// nodes `names`, in tree order.
pub open spec fn virtio_paths(dtb: Dtb, names: Seq<Seq<char>>) -> Seq<Seq<char>>
    decreases names.len(),
{
    if names.len() == 0 {
        Seq::empty()
    } else {
        let name = names.last();
        let path = child_path("/"@, name);
        virtio_paths(dtb, names.drop_last()) + if has_prefix(name, "soc"@) {
            virtio_paths_among(path, dtb_subnodes(dtb)[path])
        } else {
            Seq::empty()
        }
    }
}

/// The `reg` data of the last `memory` node among the root nodes `names` that
/// has a `reg` property.
pub open spec fn last_memory_reg(dtb: Dtb, names: Seq<Seq<char>>) -> Option<Seq<u8>>
    decreases names.len(),
{
    if names.len() == 0 {
        None
    } else {
        let name = names.last();
        let key = (child_path("/"@, name), "reg"@);
        if has_prefix(name, "memory"@) && dtb_properties(dtb)[key] is Some {
            dtb_properties(dtb)[key]
        } else {
            last_memory_reg(dtb, names.drop_last())
        }
    }
}

/// The regions of `mmio` from `offset` on are, one for one and in order, the
/// decoded `reg` properties of the nodes at `paths`.
pub open spec fn regions_of(dtb: Dtb, mmio: Seq<(usize, usize)>, offset: int, paths: Seq<Seq<char>>) -> bool {
    &&& mmio.len() == offset + paths.len()
    &&& forall|k: int|
        0 <= k < paths.len() ==> {
            let reg = dtb_properties(dtb)[(#[trigger] paths[k], "reg"@)];
            &&& reg is Some
            &&& mmio[offset + k].0 == reg_addr(reg->0)
            &&& mmio[offset + k].1 == reg_size(reg->0)
        }
}

/// A summary agrees with the tree: it holds one MMIO region for each
/// `virtio_mmio@` child of a `soc` node, in tree order, each the address and
/// size that the child's `reg` property spells; and its memory region is the
/// address and size that the `reg` property of the last `memory` node with
/// one spells, or zero when there is none.
pub open spec fn summary_matches_tree(dtb: Dtb, info: DtbSummary) -> bool {
    let roots = dtb_subnodes(dtb)["/"@];
    &&& regions_of(dtb, info.mmio_regions, 0, virtio_paths(dtb, roots))
    &&& match last_memory_reg(dtb, roots) {
        Some(reg) => info.memory_addr == reg_addr(reg) && info.memory_size == reg_size(reg),
        None => info.memory_addr == 0 && info.memory_size == 0,
    }
}

/// Summarising the children of a `soc` node appends the decoded `reg` of each
/// `virtio_mmio@` child, in order, and leaves everything else alone.
proof fn lemma_soc_summary_appends(dtb: Dtb, soc_path: Seq<char>, acc: DtbSummary, kids: Seq<Seq<char>>)
    requires
        soc_summary(dtb, soc_path, acc, kids) is Some,
    ensures
        ({
            let out = soc_summary(dtb, soc_path, acc, kids)->0;
            &&& out.memory_addr == acc.memory_addr
            &&& out.memory_size == acc.memory_size
            &&& out.mmio_regions.subrange(0, acc.mmio_regions.len() as int) == acc.mmio_regions
            &&& regions_of(dtb, out.mmio_regions, acc.mmio_regions.len() as int, virtio_paths_among(soc_path, kids))
        }),
    decreases kids.len(),
{
    let out = soc_summary(dtb, soc_path, acc, kids)->0;
    if kids.len() == 0 {
        assert(out.mmio_regions.subrange(0, acc.mmio_regions.len() as int) =~= acc.mmio_regions);
    } else {
        lemma_soc_summary_appends(dtb, soc_path, acc, kids.drop_last());
        let mid = soc_summary(dtb, soc_path, acc, kids.drop_last())->0;
        let before = virtio_paths_among(soc_path, kids.drop_last());
        let n = acc.mmio_regions.len() as int;
        if has_prefix(kids.last(), "virtio_mmio@"@) {
            let key = (child_path(soc_path, kids.last()), "reg"@);
            lemma_reg_region_exact(dtb_properties(dtb)[key]->0);
            assert(out.mmio_regions == mid.mmio_regions.push(reg_region(dtb_properties(dtb)[key]->0)->0));
            assert(out.mmio_regions.subrange(0, n) =~= mid.mmio_regions.subrange(0, n));
            let paths = virtio_paths_among(soc_path, kids);
            assert(paths == before.push(child_path(soc_path, kids.last())));
            assert forall|k: int| 0 <= k < paths.len() implies {
                let reg = dtb_properties(dtb)[(#[trigger] paths[k], "reg"@)];
                &&& reg is Some
                &&& out.mmio_regions[n + k].0 == reg_addr(reg->0)
                &&& out.mmio_regions[n + k].1 == reg_size(reg->0)
            } by {
                if k < before.len() {
                    assert(paths[k] == before[k]);
                    assert(out.mmio_regions[n + k] == mid.mmio_regions[n + k]);
                }
            }
        }
    }
}

/// The summary of the root nodes `names` agrees with them, node by node.
proof fn lemma_root_summary_matches(dtb: Dtb, names: Seq<Seq<char>>)
    requires
        root_summary(dtb, names) is Some,
    ensures
        ({
            let out = root_summary(dtb, names)->0;
            &&& regions_of(dtb, out.mmio_regions, 0, virtio_paths(dtb, names))
            &&& match last_memory_reg(dtb, names) {
                Some(reg) => out.memory_addr == reg_addr(reg) && out.memory_size == reg_size(reg),
                None => out.memory_addr == 0 && out.memory_size == 0,
            }
        }),
    decreases names.len(),
{
    if names.len() > 0 {
        lemma_root_summary_matches(dtb, names.drop_last());
        let before = root_summary(dtb, names.drop_last())->0;
        let name = names.last();
        let path = child_path("/"@, name);
        let key = (path, "reg"@);
        if has_prefix(name, "memory"@) && dtb_properties(dtb)[key] is Some {
            lemma_reg_region_exact(dtb_properties(dtb)[key]->0);
        }
        let m = memory_step(dtb, before, name)->0;
        assert(m.mmio_regions == before.mmio_regions);
        let out = root_summary(dtb, names)->0;
        let old_paths = virtio_paths(dtb, names.drop_last());
        if has_prefix(name, "soc"@) {
            let kids = dtb_subnodes(dtb)[path];
            lemma_soc_summary_appends(dtb, path, m, kids);
            let new_paths = virtio_paths_among(path, kids);
            let paths = virtio_paths(dtb, names);
            assert(paths == old_paths + new_paths);
            let n = old_paths.len() as int;
            assert forall|k: int| 0 <= k < paths.len() implies {
                let reg = dtb_properties(dtb)[(#[trigger] paths[k], "reg"@)];
                &&& reg is Some
                &&& out.mmio_regions[0 + k].0 == reg_addr(reg->0)
                &&& out.mmio_regions[0 + k].1 == reg_size(reg->0)
            } by {
                if k < n {
                    assert(paths[k] == old_paths[k]);
                    assert(out.mmio_regions.subrange(0, n)[k] == out.mmio_regions[k]);
                    assert(before.mmio_regions[0 + k] == before.mmio_regions[k]);
                } else {
                    assert(paths[k] == new_paths[k - n]);
                    assert(new_paths[k - n] == new_paths[k - n]);
                    let j = k - n;
                    assert(out.mmio_regions[n + j] == out.mmio_regions[k]);
                }
            }
        } else {
            assert(virtio_paths(dtb, names) =~= old_paths);
        }
    }
}

/// Whenever the tree can be summarised, the summary agrees with it: one MMIO
/// region per `virtio_mmio@` child of a `soc` node, in tree order, each the
/// address and size its `reg` property spells, and the memory region that
/// the `reg` property of the last `memory` node spells.
pub proof fn lemma_summary_matches_tree(dtb: Dtb)
    requires
        dtb_summary(dtb) is Some,
    ensures
        summary_matches_tree(dtb, dtb_summary(dtb)->0),
{
    lemma_root_summary_matches(dtb, dtb_subnodes(dtb)["/"@]);
}

} // verus!
