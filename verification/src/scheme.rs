use vstd::prelude::*;

use crate::error::Error;

verus! {

/// The mathematical value of a [`ColorScheme`].
pub struct SchemeData {
    pub name: Seq<char>,
    pub fg: u64,
    pub bg: u64,
}

/// One named pair of pixel values.  The pixel values are opaque references to
/// colors the drawing layer allocated; the engine only stores and selects
/// them.
#[derive(Debug)]
pub struct ColorScheme {
    name: String,
    fg: u64,
    bg: u64,
}

impl View for ColorScheme {
    type V = SchemeData;

    closed spec fn view(&self) -> SchemeData {
        SchemeData { name: self.name@, fg: self.fg, bg: self.bg }
    }
}

impl ColorScheme {
    /// A scheme from its parts.
    pub fn new(name: String, fg: u64, bg: u64) -> (r: ColorScheme)
        ensures
            r@.name == name@,
            r@.fg == fg,
            r@.bg == bg,
    {
        ColorScheme { name, fg, bg }
    }

    /// The foreground pixel value, or the background one when `invert` asks
    /// for the reversed colors.
    pub fn pixel(&self, invert: bool) -> (r: u64)
        ensures
            r == (if invert {
                self@.bg
            } else {
                self@.fg
            }),
    {
        if invert {
            self.bg
        } else {
            self.fg
        }
    }

    /// The scheme's name.
    pub fn name(&self) -> (r: &String)
        ensures
            r@ == self@.name,
    {
        &self.name
    }

    /// The foreground pixel value.
    pub fn fg(&self) -> (r: u64)
        ensures
            r == self@.fg,
    {
        self.fg
    }

    /// The background pixel value.
    pub fn bg(&self) -> (r: u64)
        ensures
            r == self@.bg,
    {
        self.bg
    }
}

/// `i` is the position of the first scheme named `name`.
pub open spec fn is_first_named(schemes: Seq<SchemeData>, name: Seq<char>, i: int) -> bool {
    &&& 0 <= i < schemes.len()
    &&& schemes[i].name == name
    &&& forall|j: int| 0 <= j < i ==> (#[trigger] schemes[j]).name != name
}

/// No registered scheme is named `name`.
pub open spec fn no_scheme_named(schemes: Seq<SchemeData>, name: Seq<char>) -> bool {
    forall|j: int| 0 <= j < schemes.len() ==> (#[trigger] schemes[j]).name != name
}

/// The registered color schemes.  The scheme at position 0 is the active one,
/// which the drawing layer consults for every fill and stroke; selecting a
/// scheme by name moves it to the front.
#[derive(Debug)]
pub struct SchemeList {
    schemes: Vec<ColorScheme>,
}

impl View for SchemeList {
    type V = Seq<SchemeData>;

    closed spec fn view(&self) -> Seq<SchemeData> {
        self.schemes@.map(|i: int, s: ColorScheme| s@)
    }
}

impl SchemeList {
    /// An empty list: no scheme is registered or active.
    pub fn new() -> (r: SchemeList)
        ensures
            r@.len() == 0,
    {
        SchemeList { schemes: Vec::new() }
    }

    /// The number of registered schemes.
    pub fn len(&self) -> (n: usize)
        ensures
            n == self@.len(),
    {
        self.schemes.len()
    }

    /// The scheme at position `ix`; position 0 is the active scheme.
    pub fn get(&self, ix: usize) -> (s: &ColorScheme)
        requires
            ix < self@.len(),
        ensures
            s@ == self@[ix as int],
    {
        &self.schemes[ix]
    }

    /// Registers a scheme at the back of the list.  The active scheme does
    /// not change unless the list was empty.
    pub fn add(&mut self, scheme: ColorScheme)
        ensures
            final(self)@ == old(self)@.push(scheme@),
    {
        self.schemes.push(scheme);
        proof {
            assert(self@ =~= old(self)@.push(scheme@));
        }
    }

    /// Makes the first scheme named `name` the active one, by swapping it to
    /// position 0; every other scheme keeps its position.  When no scheme has
    /// that name, reports `UnknownColorscheme` and changes nothing.
    pub fn set_active(&mut self, name: &String) -> (r: Result<(), Error>)
        ensures
            r matches Err(e) ==> {
                &&& final(self)@ == old(self)@
                &&& e == Error::UnknownColorscheme(*name)
                &&& no_scheme_named(old(self)@, name@)
            },
            r is Ok ==> (exists|ix: int|
                {
                    &&& #[trigger] is_first_named(old(self)@, name@, ix)
                    &&& final(self)@.len() == old(self)@.len()
                    &&& final(self)@[0] == old(self)@[ix]
                    &&& final(self)@[ix] == old(self)@[0]
                    &&& forall|j: int|
                        0 <= j < old(self)@.len() && j != 0 && j != ix ==> final(self)@[j] == old(
                            self,
                        )@[j]
                }),
    {
        let n = self.schemes.len();
        let mut i: usize = 0;
        while i < n
            invariant
                self.schemes@ == old(self).schemes@,
                n == self@.len(),
                i <= n,
                forall|j: int| 0 <= j < i ==> (#[trigger] self@[j]).name != name@,
            decreases n - i,
        {
            if self.schemes[i].name == *name {
                proof {
                    assert(self@[i as int] == self.schemes@[i as int]@);
                    assert(is_first_named(self@, name@, i as int));
                }
                if i != 0 {
                    let a = self.schemes.remove(i);
                    let ghost t = self.schemes@;
                    let b = self.schemes.remove(0);
                    let ghost u = self.schemes@;
                    self.schemes.insert(0, a);
                    let ghost v = self.schemes@;
                    self.schemes.insert(i, b);
                    proof {
                        let s0 = old(self).schemes@;
                        s0.remove_ensures(i as int);
                        t.remove_ensures(0);
                        u.insert_ensures(0, a);
                        v.insert_ensures(i as int, b);
                        assert(self.schemes@ =~= s0.update(0, s0[i as int]).update(
                            i as int,
                            s0[0],
                        ));
                        assert(self@[0] == old(self)@[i as int]);
                        assert(self@[i as int] == old(self)@[0]);
                        assert forall|j: int|
                            0 <= j < old(self)@.len() && j != 0 && j != i implies self@[j] == old(
                            self,
                        )@[j] by {
                            assert(self.schemes@[j] == s0[j]);
                        }
                    }
                }
                proof {
                    assert(is_first_named(old(self)@, name@, i as int));
                }
                return Ok(());
            }
            proof {
                assert(self@[i as int] == self.schemes@[i as int]@);
            }
            i += 1;
        }
        Err(Error::UnknownColorscheme(name.clone()))
    }
}

} // verus!
