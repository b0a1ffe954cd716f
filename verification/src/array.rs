use vstd::prelude::*;
use crate::encode::PyArrayError;

verus! {

// Numpy arrays read through the array interface (`__array_struct__`): the
// tree of their rows, and where each row's items lie in the data.

/// What the array interface tells of an array: its version marker (2), the
/// number of dimensions, the kind and size of its items, its flags (bit 0:
/// C-contiguous), and the shape and strides (in bytes) of each dimension.
pub struct ArrayInterface {
    pub two: i32,
    pub nd: i32,
    pub typekind: u8,
    pub itemsize: i32,
    pub flags: i32,
    pub shape: Vec<isize>,
    pub strides: Vec<isize>,
}

/// The types of items that can be written.
#[derive(Clone, Copy, Debug, PartialEq, Eq, Structural)]
pub enum ItemType {
    BOOL,
    F32,
    F64,
    I32,
    I64,
    U32,
    U64,
}

/// The type of items of a kind (`b`, `f`, `i`, `u`) and size.
pub open spec fn spec_kind(typekind: u8, itemsize: i32) -> Option<ItemType> {
    if typekind == 98 && itemsize == 1 {
        Some(ItemType::BOOL)
    } else if typekind == 102 && itemsize == 4 {
        Some(ItemType::F32)
    } else if typekind == 102 && itemsize == 8 {
        Some(ItemType::F64)
    } else if typekind == 105 && itemsize == 4 {
        Some(ItemType::I32)
    } else if typekind == 105 && itemsize == 8 {
        Some(ItemType::I64)
    } else if typekind == 117 && itemsize == 4 {
        Some(ItemType::U32)
    } else if typekind == 117 && itemsize == 8 {
        Some(ItemType::U64)
    } else {
        None
    }
}

/// The size in bytes of one item of a type.
pub open spec fn item_size(k: ItemType) -> int {
    match k {
        ItemType::BOOL => 1,
        ItemType::F32 | ItemType::I32 | ItemType::U32 => 4,
        ItemType::F64 | ItemType::I64 | ItemType::U64 => 8,
    }
}

/// The numpy kind letter of a type: `b` for booleans, `f` for floats, `i`
/// for signed and `u` for unsigned integers.
pub open spec fn item_letter(k: ItemType) -> u8 {
    match k {
        ItemType::BOOL => 98,
        ItemType::F32 | ItemType::F64 => 102,
        ItemType::I32 | ItemType::I64 => 105,
        ItemType::U32 | ItemType::U64 => 117,
    }
}

/// The item type read from a dtype is of the dtype's kind and size: the
/// items are read with as many bytes as the array holds each in, and as
/// the kind of number the array holds. Every supported pair of kind and
/// size (`b` of 1 byte; `f`, `i` and `u` of 4 or 8 bytes) has an item type,
/// and no two pairs share one.
pub proof fn lemma_kind_matches_dtype(typekind: u8, itemsize: i32)
    ensures
        spec_kind(typekind, itemsize) matches Some(k) ==> item_size(k) == itemsize && item_letter(k) == typekind,
        (typekind == 98 && itemsize == 1) || ((typekind == 102 || typekind == 105 || typekind == 117) && (itemsize
            == 4 || itemsize == 8)) <==> spec_kind(typekind, itemsize) is Some,
{
}

/// The sum of `|stride| * extent` over the first `n` dimensions: a bound on
/// how far from the start any item lies.
pub open spec fn span(shape: Seq<isize>, strides: Seq<isize>, n: int) -> int
    decreases n,
{
    if n <= 0 {
        0
    } else {
        span(shape, strides, n - 1) + (if strides[n - 1] >= 0 { strides[n - 1] as int } else { -strides[n - 1] }) * shape[n - 1]
    }
}

impl ArrayInterface {
    /// The dimensions, their extents and strides are consistent, and every
    /// item lies within `isize` bytes of the start.
    pub open spec fn wf(&self) -> bool {
        &&& self.nd >= 0
        &&& self.shape@.len() == self.nd
        &&& self.strides@.len() == self.nd
        &&& forall|k: int| 0 <= k < self.nd ==> self.shape@[k] >= 0
        &&& span(self.shape@, self.strides@, self.nd as int) <= isize::MAX
    }
}

/// The byte offset of the row at `position`, counting the first `depth`
/// dimensions.
pub open spec fn offset_of(strides: Seq<isize>, position: Seq<isize>, depth: int) -> int
    decreases depth,
{
    if depth <= 0 {
        0
    } else {
        offset_of(strides, position, depth - 1) + strides[depth - 1] * position[depth - 1]
    }
}

/// One step of writing an array: a list opens, a run of items lies at a
/// byte offset, or a list closes.
#[derive(Clone, Copy, Debug, PartialEq, Eq, Structural)]
pub enum ArrayWrite {
    Start,
    Items { offset: isize, count: usize, kind: ItemType },
    End,
}

/// A row of an array: where it is, its sub-rows, and its depth.
pub struct PyArray<'a> {
    array: &'a ArrayInterface,
    position: Vec<isize>,
    children: Vec<PyArray<'a>>,
    depth: usize,
}

/// The position with its coordinate at `depth` set to `i`.
pub open spec fn moved(position: Seq<isize>, depth: int, i: int) -> Seq<isize> {
    position.update(depth, i as isize)
}

impl<'a> PyArray<'a> {
    pub closed spec fn array(&self) -> ArrayInterface {
        *self.array
    }

    pub closed spec fn depth(&self) -> int {
        self.depth as int
    }

    pub closed spec fn position(&self) -> Seq<isize> {
        self.position@
    }

    /// A row at `depth` and `position` of `array`, holding the sub-rows
    /// at each coordinate of the next dimension unless it is of the last
    /// dimension that has rows.
    pub closed spec fn row_ok(&self, array: ArrayInterface, position: Seq<isize>, depth: int) -> bool
        decreases self,
    {
        &&& *self.array == array
        &&& self.depth == depth
        &&& self.position@ == position
        &&& position.len() == array.nd
        &&& 0 <= depth < array.nd || (depth == 0 && array.nd == 0)
        &&& forall|k: int| 0 <= k < depth ==> 0 <= #[trigger] position[k] < array.shape@[k]
        &&& self.children@.len() == if depth + 1 < array.nd { array.shape@[depth] as int } else { 0 }
        &&& forall|i: int| #![trigger self.children@[i]] 0 <= i < self.children@.len() ==> self.children@[i].row_ok(array, moved(position, depth, i), depth + 1)
    }
}

/// The steps of writing the row at `position` and `depth`: a list of its
/// sub-rows when it has any, else a list of the items of the last
/// dimension that lie at its offset.
pub open spec fn spec_writes(array: ArrayInterface, position: Seq<isize>, depth: int, kind: ItemType) -> Seq<ArrayWrite>
    decreases array.nd - depth, 1int, 0int,
{
    if 0 <= depth && depth + 1 < array.nd && array.shape@[depth] > 0 {
        seq![ArrayWrite::Start] + spec_writes_upto(array, position, depth, array.shape@[depth] as int, kind) + seq![ArrayWrite::End]
    } else {
        seq![
            ArrayWrite::Start,
            ArrayWrite::Items {
                offset: offset_of(array.strides@, position, depth) as isize,
                count: array.shape@[array.nd - 1] as usize,
                kind,
            },
            ArrayWrite::End,
        ]
    }
}

/// The steps of writing the first `n` sub-rows of the row at `position`.
pub open spec fn spec_writes_upto(array: ArrayInterface, position: Seq<isize>, depth: int, n: int, kind: ItemType) -> Seq<ArrayWrite>
    decreases array.nd - depth, 0int, n,
{
    if n <= 0 || depth < 0 || depth + 1 >= array.nd {
        seq![]
    } else {
        spec_writes_upto(array, position, depth, n - 1, kind) + spec_writes(array, moved(position, depth, n - 1), depth + 1, kind)
    }
}

pub proof fn lemma_span_monotone(shape: Seq<isize>, strides: Seq<isize>, m: int, n: int)
    requires
        0 <= m <= n <= shape.len(),
        n <= strides.len(),
        forall|k: int| 0 <= k < n ==> shape[k] >= 0,
    ensures
        span(shape, strides, m) <= span(shape, strides, n),
    decreases n - m,
{
    if m < n {
        lemma_span_monotone(shape, strides, m, n - 1);
        let s = if strides[n - 1] >= 0 { strides[n - 1] as int } else { -strides[n - 1] };
        assert(s * shape[n - 1] >= 0) by (nonlinear_arith)
            requires
                s >= 0,
                shape[n - 1] >= 0,
        ;
    }
}

pub proof fn lemma_offset_bound(shape: Seq<isize>, strides: Seq<isize>, position: Seq<isize>, d: int)
    requires
        0 <= d <= shape.len(),
        d <= strides.len(),
        d <= position.len(),
        forall|k: int| 0 <= k < d ==> 0 <= #[trigger] position[k] < shape[k],
    ensures
        -span(shape, strides, d) <= offset_of(strides, position, d) <= span(shape, strides, d),
    decreases d,
{
    if d > 0 {
        lemma_offset_bound(shape, strides, position, d - 1);
        let st = strides[d - 1] as int;
        let p = position[d - 1] as int;
        let sh = shape[d - 1] as int;
        let s = if st >= 0 { st } else { -st };
        assert(-(s * sh) <= st * p <= s * sh) by (nonlinear_arith)
            requires
                0 <= p < sh,
                s == if st >= 0 { st } else { -st },
        ;
    }
}

impl<'a> PyArray<'a> {
    /// Reads an array from its interface: the marker must be 2, the data
    /// C-contiguous and the items of a supported type; an array of more
    /// than one dimension gets its tree of rows.
    pub fn new(array: &'a ArrayInterface) -> (r: Result<PyArray<'a>, PyArrayError>)
        requires
            array.wf(),
        ensures
            array.two != 2 ==> r == Err::<PyArray<'a>, PyArrayError>(PyArrayError::Malformed),
            array.two == 2 && array.flags & 1 != 1 ==> r == Err::<PyArray<'a>, PyArrayError>(PyArrayError::NotContiguous),
            array.two == 2 && array.flags & 1 == 1 && spec_kind(array.typekind, array.itemsize) is None
                ==> r == Err::<PyArray<'a>, PyArrayError>(PyArrayError::UnsupportedDataType),
            array.two == 2 && array.flags & 1 == 1 && spec_kind(array.typekind, array.itemsize) is Some
                ==> (r matches Ok(a) && a.row_ok(*array, Seq::new(array.nd as nat, |k: int| 0isize), 0)
                && a.array() == *array && a.position() == Seq::new(array.nd as nat, |k: int| 0isize)
                && a.depth() == 0),
    {
        if array.two != 2 {
            return Err(PyArrayError::Malformed);
        }
        if array.flags & 1 != 1 {
            return Err(PyArrayError::NotContiguous);
        }
        let num_dimensions = array.nd as usize;
        let mut position: Vec<isize> = Vec::new();
        let mut k: usize = 0;
        while k < num_dimensions
            invariant
                k <= num_dimensions,
                position@.len() == k,
                forall|i: int| 0 <= i < k ==> position@[i] == 0,
            decreases num_dimensions - k,
        {
            position.push(0);
            k = k + 1;
        }
        let mut pyarray = PyArray { array, position, children: Vec::new(), depth: 0 };
        proof {
            assert(pyarray.position@ =~= Seq::new(array.nd as nat, |k: int| 0isize));
        }
        if pyarray.kind().is_none() {
            Err(PyArrayError::UnsupportedDataType)
        } else {
            if pyarray.dimensions() > 1 {
                pyarray.build();
            }
            Ok(pyarray)
        }
    }

    /// A sub-row at `position`, one level deeper, with its own sub-rows.
    fn from_parent(&self, position: Vec<isize>) -> (arr: PyArray<'a>)
        requires
            self.array.wf(),
            self.depth + 1 < self.array.nd,
            position@.len() == self.array.nd,
            forall|k: int| 0 <= k < self.depth + 1 ==> 0 <= #[trigger] position@[k] < self.array.shape@[k],
        ensures
            arr.row_ok(*self.array, position@, self.depth + 1),
        decreases self.array.nd - self.depth, 0int,
    {
        let mut arr = PyArray { array: self.array, position, children: Vec::new(), depth: self.depth + 1 };
        arr.build();
        arr
    }

    /// The type of the items.
    fn kind(&self) -> (k: Option<ItemType>)
        ensures
            k == spec_kind(self.array.typekind, self.array.itemsize),
    {
        let typekind = self.array.typekind;
        let itemsize = self.array.itemsize;
        if typekind == 98u8 && itemsize == 1 {
            Some(ItemType::BOOL)
        } else if typekind == 102u8 && itemsize == 4 {
            Some(ItemType::F32)
        } else if typekind == 102u8 && itemsize == 8 {
            Some(ItemType::F64)
        } else if typekind == 105u8 && itemsize == 4 {
            Some(ItemType::I32)
        } else if typekind == 105u8 && itemsize == 8 {
            Some(ItemType::I64)
        } else if typekind == 117u8 && itemsize == 4 {
            Some(ItemType::U32)
        } else if typekind == 117u8 && itemsize == 8 {
            Some(ItemType::U64)
        } else {
            None
        }
    }

    /// Gives this row, which has none yet, its sub-rows: one for each
    /// coordinate of its dimension, unless it is of the last dimension that
    /// has rows.
    fn build(&mut self)
        requires
            old(self).array.wf(),
            old(self).children@.len() == 0,
            old(self).position@.len() == old(self).array.nd,
            0 <= old(self).depth < old(self).array.nd,
            forall|k: int| 0 <= k < old(self).depth ==> 0 <= #[trigger] old(self).position@[k] < old(self).array.shape@[k],
        ensures
            final(self).row_ok(*old(self).array, old(self).position@, old(self).depth as int),
        decreases old(self).array.nd - old(self).depth, 1int,
    {
        if self.depth + 1 < self.dimensions() {
            let n = self.array.shape[self.depth];
            let mut i: isize = 0;
            while i < n
                invariant
                    self.array.wf(),
                    *self.array == *old(self).array,
                    self.depth == old(self).depth,
                    self.position@ == old(self).position@,
                    self.position@.len() == self.array.nd,
                    self.depth + 1 < self.array.nd,
                    n == self.array.shape@[self.depth as int],
                    0 <= i <= n,
                    forall|k: int| 0 <= k < self.depth ==> 0 <= #[trigger] self.position@[k] < self.array.shape@[k],
                    self.children@.len() == i,
                    forall|j: int| #![trigger self.children@[j]] 0 <= j < i ==> self.children@[j].row_ok(
                        *self.array,
                        moved(self.position@, self.depth as int, j),
                        self.depth + 1,
                    ),
                decreases n - i,
            {
                let mut position = copy_position(&self.position);
                position.set(self.depth, i);
                proof {
                    assert(position@ =~= moved(self.position@, self.depth as int, i as int));
                }
                let child = self.from_parent(position);
                self.children.push(child);
                i = i + 1;
            }
        }
        proof {
            reveal_with_fuel(PyArray::row_ok, 1);
        }
    }

    /// The byte offset of this row's items in the data.
    fn data(&self) -> (offset: isize)
        requires
            self.row_ok(self.array(), self.position(), self.depth()),
            self.array.wf(),
        ensures
            offset == offset_of(self.array.strides@, self.position@, self.depth as int),
    {
        let strides = self.array.strides.as_slice();
        let ghost shape = self.array.shape@;
        let mut offset: isize = 0;
        let mut k: usize = 0;
        proof {
            lemma_span_monotone(shape, strides@, self.depth as int, self.array.nd as int);
        }
        while k < self.depth
            invariant
                strides@ == self.array.strides@,
                self.array.wf(),
                shape == self.array.shape@,
                self.position@.len() == self.array.nd,
                k <= self.depth,
                self.depth <= self.array.nd,
                forall|j: int| 0 <= j < self.depth ==> 0 <= #[trigger] self.position@[j] < shape[j],
                span(shape, strides@, self.depth as int) <= isize::MAX,
                offset == offset_of(strides@, self.position@, k as int),
            decreases self.depth - k,
        {
            proof {
                lemma_offset_bound(shape, strides@, self.position@, k as int + 1);
                lemma_span_monotone(shape, strides@, k as int + 1, self.depth as int);
                lemma_offset_bound(shape, strides@, self.position@, k as int);
                lemma_span_monotone(shape, strides@, k as int, self.depth as int);
                let st = strides@[k as int] as int;
                let p = self.position@[k as int] as int;
                let sh = shape[k as int] as int;
                let s = if st >= 0 { st } else { -st };
                assert(-(s * sh) <= st * p <= s * sh) by (nonlinear_arith)
                    requires
                        0 <= p < sh,
                        s == if st >= 0 { st } else { -st },
                ;
            }
            offset = offset + strides[k] * self.position[k];
            k = k + 1;
        }
        offset
    }

    /// The number of items in a row of the last dimension.
    fn num_items(&self) -> (n: usize)
        requires
            self.array.wf(),
            self.array.nd >= 1,
        ensures
            n == self.array.shape@[self.array.nd - 1],
    {
        let shape = self.array.shape.as_slice();
        shape[shape.len() - 1] as usize
    }

    /// The number of dimensions.
    fn dimensions(&self) -> (n: usize)
        requires
            self.array.nd >= 0,
        ensures
            n == self.array.nd,
    {
        self.array.nd as usize
    }

    /// The steps of writing this row: a list of its sub-rows, or of its
    /// items.
    pub fn serialize(&self, out: &mut Vec<ArrayWrite>)
        requires
            self.row_ok(self.array(), self.position(), self.depth()),
            self.array().wf(),
            self.array().nd >= 1,
            spec_kind(self.array().typekind, self.array().itemsize) is Some,
        ensures
            final(out)@ == old(out)@ + spec_writes(
                self.array(),
                self.position(),
                self.depth(),
                spec_kind(self.array().typekind, self.array().itemsize)->0,
            ),
        decreases self.array().nd - self.depth(),
    {
        let ghost kind = spec_kind(self.array().typekind, self.array().itemsize)->0;
        let ghost start = out@;
        out.push(ArrayWrite::Start);
        if self.children.len() > 0 {
            let mut i: usize = 0;
            while i < self.children.len()
                invariant
                    self.row_ok(self.array(), self.position(), self.depth()),
                    self.array().wf(),
                    self.array().nd >= 1,
                    spec_kind(self.array().typekind, self.array().itemsize) is Some,
                    kind == spec_kind(self.array().typekind, self.array().itemsize)->0,
                    self.children@.len() > 0,
                    i <= self.children@.len(),
                    out@ == start + seq![ArrayWrite::Start] + spec_writes_upto(
                        self.array(),
                        self.position(),
                        self.depth(),
                        i as int,
                        kind,
                    ),
                decreases self.children@.len() - i,
            {
                let ghost before = out@;
                let child = &self.children[i];
                proof {
                    assert(child.row_ok(self.array(), moved(self.position(), self.depth(), i as int), self.depth() + 1));
                    assert(child.array() == self.array());
                    assert(child.position() == moved(self.position(), self.depth(), i as int));
                    assert(child.depth() == self.depth() + 1);
                }
                child.serialize(out);
                proof {
                    assert(out@ =~= start + seq![ArrayWrite::Start] + spec_writes_upto(
                        self.array(),
                        self.position(),
                        self.depth(),
                        i + 1,
                        kind,
                    ));
                }
                i = i + 1;
            }
        } else {
            let offset = self.data();
            let count = self.num_items();
            let k = match self.kind() {
                Some(k) => k,
                None => ItemType::BOOL,
            };
            out.push(ArrayWrite::Items { offset, count, kind: k });
        }
        out.push(ArrayWrite::End);
        proof {
            assert(out@ =~= start + spec_writes(self.array(), self.position(), self.depth(), kind));
        }
    }
}

/// A copy of a position.
fn copy_position(p: &Vec<isize>) -> (c: Vec<isize>)
    ensures
        c@ == p@,
{
    let mut c: Vec<isize> = Vec::new();
    let mut k: usize = 0;
    while k < p.len()
        invariant
            k <= p@.len(),
            c@ == p@.subrange(0, k as int),
        decreases p.len() - k,
    {
        c.push(p[k]);
        k = k + 1;
        proof {
            assert(c@ =~= p@.subrange(0, k as int));
        }
    }
    proof {
        assert(p@.subrange(0, p@.len() as int) =~= p@);
    }
    c
}

} // verus!
