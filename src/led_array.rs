use vstd::prelude::*;

verus! {

/// Number of cells in the canvas.
pub const LED_COUNT: usize = 100;

/// Largest valid cell index.
pub const LED_MAX_INDEX: usize = LED_COUNT - 1;

/// One RGB cell value.
#[derive(Clone, Copy, Debug, PartialEq, Eq, Structural)]
pub struct Color {
    pub red: u8,
    pub green: u8,
    pub blue: u8,
}

/// The color every cell holds on a fresh canvas.
pub open spec fn black() -> Color {
    Color { red: 0, green: 0, blue: 0 }
}

impl Default for Color {
    fn default() -> (r: Self)
        ensures
            r == black(),
    {
        Color { red: 0, green: 0, blue: 0 }
    }
}

/// Why a canvas operation was refused.
#[derive(Clone, Copy, Debug, PartialEq, Eq, Structural)]
pub enum CanvasError {
    /// The index is not below `LED_COUNT`.
    OutOfRange { index: usize },
    /// An encoded canvas did not have the expected length.
    WrongLength { len: usize },
}

/// Channel `k` (0 red, 1 green, 2 blue) of a color.
pub open spec fn channel(c: Color, k: int) -> u8 {
    if k == 0 {
        c.red
    } else if k == 1 {
        c.green
    } else {
        c.blue
    }
}

/// The flat byte layout of a sequence of cells: byte `k` is channel `k % 3`
/// of cell `k / 3`.
pub open spec fn encode_cells(cells: Seq<Color>) -> Seq<u8> {
    Seq::new(3 * cells.len(), |k: int| channel(cells[k / 3], k % 3))
}

/// The cells read back from a flat byte layout, three bytes per cell.
pub open spec fn decode_cells(bytes: Seq<u8>) -> Seq<Color> {
    Seq::new(
        bytes.len() / 3,
        |i: int| Color { red: bytes[3 * i], green: bytes[3 * i + 1], blue: bytes[3 * i + 2] },
    )
}

/// A canvas of `LED_COUNT` black cells.
pub open spec fn blank_cells() -> Seq<Color> {
    Seq::new(LED_COUNT as nat, |i: int| black())
}

/// Reading cell `index` of `cells`.
pub open spec fn cell_at(cells: Seq<Color>, index: int) -> Option<Color> {
    if 0 <= index < cells.len() {
        Some(cells[index])
    } else {
        None
    }
}

/// Writing `color` into cell `index` of `cells`.
pub open spec fn with_cell(cells: Seq<Color>, index: int, color: Color) -> Result<
    Seq<Color>,
    CanvasError,
> {
    if 0 <= index < cells.len() {
        Ok(cells.update(index, color))
    } else {
        Err(CanvasError::OutOfRange { index: index as usize })
    }
}

/// The canvas a stored record stands for: the record itself when it has the
/// right length, a blank canvas otherwise.
pub open spec fn loaded_cells(record: Option<Seq<Color>>) -> Seq<Color> {
    match record {
        Some(cells) => if cells.len() == LED_COUNT {
            cells
        } else {
            blank_cells()
        },
        None => blank_cells(),
    }
}

/// The canvas: exactly `LED_COUNT` cells in index order.
pub struct LedArray {
    leds: Vec<Color>,
}

impl View for LedArray {
    type V = Seq<Color>;

    closed spec fn view(&self) -> Seq<Color> {
        self.leds@
    }
}

impl LedArray {
    #[verifier::type_invariant]
    spec fn inv(self) -> bool {
        self.leds@.len() == LED_COUNT
    }

    /// The number of cells, always `LED_COUNT`.
    pub fn len(&self) -> (r: usize)
        ensures
            r == self@.len(),
            r == LED_COUNT,
    {
        proof {
            use_type_invariant(self);
        }
        self.leds.len()
    }

    /// The cells, in index order.
    pub fn as_slice(&self) -> (r: &[Color])
        ensures
            r@ == self@,
            r@.len() == LED_COUNT,
    {
        proof {
            use_type_invariant(self);
        }
        self.leds.as_slice()
    }

    /// A copy of the cells, in index order.
    pub fn to_colors(&self) -> (r: Vec<Color>)
        ensures
            r@ == self@,
            r@.len() == LED_COUNT,
    {
        proof {
            use_type_invariant(self);
        }
        let mut out: Vec<Color> = Vec::with_capacity(LED_COUNT);
        let mut i: usize = 0;
        while i < self.leds.len()
            invariant
                i <= self.leds@.len(),
                out@ == self.leds@.subrange(0, i as int),
            decreases self.leds@.len() - i,
        {
            out.push(self.leds[i]);
            i = i + 1;
            assert(out@ =~= self.leds@.subrange(0, i as int));
        }
        assert(out@ =~= self.leds@);
        out
    }

    /// A canvas with the same cells.
    pub fn duplicate(&self) -> (r: LedArray)
        ensures
            r@ == self@,
    {
        LedArray { leds: self.to_colors() }
    }

    /// Cell `index`, or `None` past the end.
    pub fn get(&self, index: usize) -> (r: Option<Color>)
        ensures
            r == cell_at(self@, index as int),
            r is Some <==> index < LED_COUNT,
    {
        proof {
            use_type_invariant(self);
        }
        if index < self.leds.len() {
            Some(self.leds[index])
        } else {
            None
        }
    }

    /// Sets cell `index` to `color`; an index past the end changes nothing.
    pub fn set(&mut self, index: usize, color: Color) -> (r: Result<(), CanvasError>)
        ensures
            r is Ok <==> index < LED_COUNT,
            r is Ok ==> with_cell(old(self)@, index as int, color) == Ok::<Seq<Color>, CanvasError>(final(self)@),
            r is Err ==> r == Err::<(), CanvasError>(CanvasError::OutOfRange { index }),
            r is Err ==> final(self)@ == old(self)@,
    {
        proof {
            use_type_invariant(&*self);
        }
        if index < self.leds.len() {
            self.leds[index] = color;
            Ok(())
        } else {
            Err(CanvasError::OutOfRange { index })
        }
    }
}

impl Default for LedArray {
    /// A canvas of black cells.
    fn default() -> (r: Self)
        ensures
            r@ == blank_cells(),
    {
        let mut leds: Vec<Color> = Vec::with_capacity(LED_COUNT);
        let mut i: usize = 0;
        while i < LED_COUNT
            invariant
                i <= LED_COUNT,
                leds@ == Seq::new(i as nat, |j: int| black()),
            decreases LED_COUNT - i,
        {
            leds.push(Color::default());
            i = i + 1;
            assert(leds@ =~= Seq::new(i as nat, |j: int| black()));
        }
        assert(leds@ =~= blank_cells());
        LedArray { leds }
    }
}

impl Clone for LedArray {
    fn clone(&self) -> (r: Self)
        ensures
            r@ == self@,
    {
        self.duplicate()
    }
}

impl From<LedArray> for Vec<u8> {
    fn from(a: LedArray) -> (r: Vec<u8>)
        ensures
            r@ == encode_cells(a@),
    {
        a.to_bytes()
    }
}

impl vstd::std_specs::convert::FromSpecImpl<LedArray> for Vec<u8> {
    open spec fn obeys_from_spec() -> bool {
        false
    }

    open spec fn from_spec(a: LedArray) -> Vec<u8> {
        arbitrary()
    }
}

impl LedArray {
    /// A canvas from its cells in index order; refused unless there are
    /// exactly `LED_COUNT` of them.
    pub fn from_colors(colors: Vec<Color>) -> (r: Result<LedArray, CanvasError>)
        ensures
            r is Ok <==> colors@.len() == LED_COUNT,
            r matches Ok(a) ==> a@ == colors@,
            r is Err ==> r == Err::<LedArray, CanvasError>(
                CanvasError::WrongLength { len: colors@.len() as usize },
            ),
    {
        if colors.len() == LED_COUNT {
            Ok(LedArray { leds: colors })
        } else {
            Err(CanvasError::WrongLength { len: colors.len() })
        }
    }

    /// The canvas to start from, given what storage held: the stored cells
    /// when there are `LED_COUNT` of them, a blank canvas when nothing was
    /// stored or the record does not fit.
    pub fn from_persisted(record: Option<Vec<Color>>) -> (r: LedArray)
        ensures
            r@ == loaded_cells(
                match record {
                    Some(v) => Some(v@),
                    None => None,
                },
            ),
    {
        match record {
            Some(colors) => match LedArray::from_colors(colors) {
                Ok(a) => a,
                Err(_) => LedArray::default(),
            },
            None => LedArray::default(),
        }
    }

    /// The flat byte layout: red, green and blue of each cell in index order.
    pub fn to_bytes(&self) -> (r: Vec<u8>)
        ensures
            r@ == encode_cells(self@),
            r@.len() == 3 * LED_COUNT,
    {
        proof {
            use_type_invariant(self);
        }
        let mut out: Vec<u8> = Vec::with_capacity(3 * LED_COUNT);
        let mut i: usize = 0;
        while i < self.leds.len()
            invariant
                i <= self.leds@.len() == LED_COUNT,
                out@ == encode_cells(self.leds@.subrange(0, i as int)),
            decreases self.leds@.len() - i,
        {
            let c = self.leds[i];
            let ghost before = out@;
            out.push(c.red);
            out.push(c.green);
            out.push(c.blue);
            proof {
                let done = self.leds@.subrange(0, i + 1);
                assert forall|k: int| 0 <= k < 3 * (i + 1) implies out@[k] == channel(
                    done[k / 3],
                    k % 3,
                ) by {
                    if k < 3 * i {
                        lemma_div_mod_below(k, i as int);
                        assert(out@[k] == before[k]);
                    } else {
                        lemma_div_mod_at(k, i as int);
                    }
                }
                assert(out@ =~= encode_cells(done));
            }
            i = i + 1;
        }
        assert(self.leds@.subrange(0, LED_COUNT as int) =~= self.leds@);
        out
    }

    /// The canvas encoded by `bytes` in the flat byte layout; refused unless
    /// there are exactly `3 * LED_COUNT` bytes.
    pub fn from_bytes(bytes: &[u8]) -> (r: Result<LedArray, CanvasError>)
        ensures
            r is Ok <==> bytes@.len() == 3 * LED_COUNT,
            r matches Ok(a) ==> a@ == decode_cells(bytes@),
            r is Err ==> r == Err::<LedArray, CanvasError>(
                CanvasError::WrongLength { len: bytes@.len() as usize },
            ),
    {
        if bytes.len() != 3 * LED_COUNT {
            return Err(CanvasError::WrongLength { len: bytes.len() });
        }
        let mut leds: Vec<Color> = Vec::with_capacity(LED_COUNT);
        let mut i: usize = 0;
        while i < LED_COUNT
            invariant
                bytes@.len() == 3 * LED_COUNT,
                i <= LED_COUNT,
                leds@ == decode_cells(bytes@).subrange(0, i as int),
            decreases LED_COUNT - i,
        {
            let c = Color { red: bytes[3 * i], green: bytes[3 * i + 1], blue: bytes[3 * i + 2] };
            leds.push(c);
            i = i + 1;
            assert(leds@ =~= decode_cells(bytes@).subrange(0, i as int));
        }
        assert(leds@ =~= decode_cells(bytes@));
        Ok(LedArray { leds })
    }
}

/// Writing a color into a cell of the canvas and then reading that cell gives
/// the color back, and every other cell reads as before.
pub proof fn lemma_set_then_get(cells: Seq<Color>, index: int, color: Color)
    requires
        cells.len() == LED_COUNT,
        0 <= index < LED_COUNT,
    ensures
        with_cell(cells, index, color) matches Ok(after) && after.len() == LED_COUNT && cell_at(
            after,
            index,
        ) == Some(color) && forall|j: int|
            j != index ==> #[trigger] cell_at(after, j) == cell_at(cells, j),
{
}

/// An index outside the canvas is refused by both reading and writing, and
/// the refused write leaves no cell changed.
pub proof fn lemma_out_of_range(cells: Seq<Color>, index: usize, color: Color)
    requires
        cells.len() == LED_COUNT,
        index >= LED_COUNT,
    ensures
        cell_at(cells, index as int) is None,
        with_cell(cells, index as int, color) == Err::<Seq<Color>, CanvasError>(
            CanvasError::OutOfRange { index },
        ),
{
}

/// Decoding the byte layout of any canvas gives the canvas back.
pub proof fn lemma_bytes_round_trip(cells: Seq<Color>)
    ensures
        decode_cells(encode_cells(cells)) == cells,
{
    let bytes = encode_cells(cells);
    let back = decode_cells(bytes);
    assert(bytes.len() / 3 == cells.len());
    assert forall|i: int| 0 <= i < cells.len() implies back[i] == cells[i] by {
        lemma_div_mod_at(3 * i, i);
        lemma_div_mod_at(3 * i + 1, i);
        lemma_div_mod_at(3 * i + 2, i);
    }
    assert(back =~= cells);
}

/// Loading a stored canvas gives that canvas back, so storing the same
/// canvas any number of times and then loading yields it.
pub proof fn lemma_load_after_save(cells: Seq<Color>)
    requires
        cells.len() == LED_COUNT,
    ensures
        loaded_cells(Some(cells)) == cells,
{
}

proof fn lemma_div_mod_below(k: int, i: int)
    requires
        0 <= k < 3 * i,
    ensures
        k / 3 < i,
{
}

proof fn lemma_div_mod_at(k: int, i: int)
    requires
        3 * i <= k < 3 * (i + 1),
    ensures
        k / 3 == i,
        k % 3 == k - 3 * i,
{
}

} // verus!
