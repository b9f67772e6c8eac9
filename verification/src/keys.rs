use vstd::prelude::*;

verus! {

/// Three rows of keys, each padded with `None` up to `MAXLEN` columns.
pub struct KeyDistribution<const MAXLEN: usize> {
    keys: [[Option<char>; MAXLEN]; 3],
}

/// The row `given` padded with `None` up to `width` entries.
pub open spec fn padded_row(given: Seq<char>, width: nat) -> Seq<Option<char>> {
    Seq::new(width, |c: int| if c < given.len() { Some(given[c]) } else { None })
}

impl<const MAXLEN: usize> KeyDistribution<MAXLEN> {
    /// The three rows, each of length `MAXLEN`.
    pub closed spec fn rows(&self) -> Seq<Seq<Option<char>>> {
        Seq::new(3, |r: int| self.keys[r]@)
    }

    /// The key at row `row` and column `col`, `None` outside the table.
    pub open spec fn key_at(&self, row: int, col: int) -> Option<char> {
        if 0 <= row < 3 && 0 <= col < MAXLEN {
            self.rows()[row][col]
        } else {
            None
        }
    }

    pub proof fn lemma_rows_shape(&self)
        ensures
            self.rows().len() == 3,
            forall|r: int| 0 <= r < 3 ==> #[trigger] self.rows()[r].len() == MAXLEN,
    {
        assert forall|r: int| 0 <= r < 3 implies #[trigger] self.rows()[r].len() == MAXLEN by {
            let a = self.keys[r];
            assert(a@.len() == MAXLEN);
        }
    }

    fn fill_row<const N: usize>(given: [char; N]) -> (row: [Option<char>; MAXLEN])
        requires
            N <= MAXLEN,
        ensures
            row@ == padded_row(given@, MAXLEN as nat),
    {
        let mut row: [Option<char>; MAXLEN] = vstd::array::array_fill_for_copy_types(None);
        let mut ki: usize = 0;
        while ki < N
            invariant
                N <= MAXLEN,
                ki <= N,
                row@.len() == MAXLEN,
                forall|c: int| 0 <= c < ki ==> row@[c] == Some(given@[c]),
                forall|c: int| ki <= c < MAXLEN ==> row@[c] == None::<char>,
            decreases N - ki,
        {
            row[ki] = Some(given[ki]);
            ki += 1;
        }
        assert(row@ =~= padded_row(given@, MAXLEN as nat));
        row
    }

    /// Lays out the three rows of keys; positions past the end of a row hold `None`.
    pub fn new<const A: usize, const B: usize, const C: usize>(
        first: [char; A],
        second: [char; B],
        third: [char; C],
    ) -> (kd: Self)
        requires
            A <= MAXLEN,
            B <= MAXLEN,
            C <= MAXLEN,
        ensures
            kd.rows() == seq![
                padded_row(first@, MAXLEN as nat),
                padded_row(second@, MAXLEN as nat),
                padded_row(third@, MAXLEN as nat),
            ],
    {
        let a = Self::fill_row(first);
        let b = Self::fill_row(second);
        let c = Self::fill_row(third);
        let kd = KeyDistribution { keys: [a, b, c] };
        assert(kd.rows() =~= seq![a@, b@, c@]);
        kd
    }

    /// The number of columns of every row.
    pub fn max_width(&self) -> (w: usize)
        ensures
            w == MAXLEN,
    {
        MAXLEN
    }

    /// The key at `row` and `col`; `None` past the table or past the end of a row.
    pub fn get(&self, row: i32, col: i32) -> (k: Option<char>)
        requires
            row >= 0 && col >= 0,
        ensures
            k == self.key_at(row as int, col as int),
    {
        let (row, col) = (row as usize, col as usize);
        if row >= 3 || col >= MAXLEN {
            None
        } else {
            self.keys[row][col]
        }
    }
}

/// A table laid out from three rows gives back, at each place, the key that
/// was put there, and `None` past the end of its row or outside the table.
pub proof fn lemma_get_after_new<const MAXLEN: usize>(
    kd: KeyDistribution<MAXLEN>,
    first: Seq<char>,
    second: Seq<char>,
    third: Seq<char>,
    row: int,
    col: int,
)
    requires
        first.len() <= MAXLEN,
        second.len() <= MAXLEN,
        third.len() <= MAXLEN,
        kd.rows() == seq![
            padded_row(first, MAXLEN as nat),
            padded_row(second, MAXLEN as nat),
            padded_row(third, MAXLEN as nat),
        ],
    ensures
        ({
            let given = if row == 0 {
                first
            } else if row == 1 {
                second
            } else {
                third
            };
            kd.key_at(row, col) == if 0 <= row < 3 && 0 <= col < given.len() {
                Some(given[col])
            } else {
                None
            }
        }),
{
}

} // verus!
