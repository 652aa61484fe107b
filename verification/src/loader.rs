//! The program loader: the named program images that processes are made from.
use vstd::prelude::*;
use crate::mm::spaces::copy_bytes;

verus! {

/// The programs known to the kernel: `images[i]` is the image of the program
/// named `names[i]`.
pub struct Loader {
    pub names: Vec<String>,
    pub images: Vec<Vec<u8>>,
}

impl Loader {
    /// Every name has its image.
    pub open spec fn wf(&self) -> bool {
        self.names@.len() == self.images@.len()
    }

    /// Whether a program is named `name`.
    pub open spec fn knows(&self, name: Seq<char>) -> bool {
        exists|i: int| 0 <= i < self.names@.len() && (#[trigger] self.names@[i])@ == name
    }

    /// The first program named `name`, where there is one.
    #[verifier::opaque]
    pub open spec fn index_of(&self, name: Seq<char>) -> int {
        choose|i: int|
            0 <= i < self.names@.len() && (#[trigger] self.names@[i])@ == name && forall|j: int|
                0 <= j < i ==> (#[trigger] self.names@[j])@ != name
    }

    /// A loader that knows no program.
    pub fn new() -> (loader: Loader)
        ensures
            loader.wf(),
            loader.names@.len() == 0,
    {
        Loader { names: Vec::new(), images: Vec::new() }
    }

    /// Makes `image` known under `name`, after the programs known so far.
    pub fn add_app(&mut self, name: &str, image: Vec<u8>)
        requires
            old(self).wf(),
        ensures
            final(self).wf(),
            final(self).names@.len() == old(self).names@.len() + 1,
            final(self).names@.drop_last() == old(self).names@,
            final(self).names@.last()@ == name@,
            final(self).images@ == old(self).images@.push(image),
    {
        self.names.push(name.to_owned());
        self.images.push(image);
        assert(self.names@.drop_last() =~= old(self).names@);
    }
}

/// How many programs the loader knows.
pub fn get_num_app(loader: &Loader) -> (n: usize)
    ensures
        n == loader.names@.len(),
{
    loader.names.len()
}

/// The index of the first program named `name`, or `Err` where none has that name.
pub fn get_appid_by_name(loader: &Loader, name: &str) -> (res: Result<usize, ()>)
    ensures
        res is Ok <==> loader.knows(name@),
        res matches Ok(i) ==> i == loader.index_of(name@) && i < loader.names@.len()
            && loader.names@[i as int]@ == name@,
{
    let target = name.to_owned();
    let mut i: usize = 0;
    while i < loader.names.len()
        invariant
            i <= loader.names@.len(),
            target@ == name@,
            forall|j: int| 0 <= j < i ==> (#[trigger] loader.names@[j])@ != name@,
        decreases loader.names.len() - i,
    {
        if loader.names[i] == target {
            proof {
                reveal(Loader::index_of);
                let w = loader.index_of(name@);
                assert(loader.names@[i as int]@ == name@);
                if w < i {
                    assert(loader.names@[w]@ != name@);
                }
                if i < w {
                    assert(loader.names@[i as int]@ != name@);
                }
            }
            return Ok(i);
        }
        i += 1;
    }
    Err(())
}

/// The image of the first program named `name`, or `Err` where none has that name.
pub fn _get_app_elf(loader: &Loader, name: &str) -> (res: Result<Vec<u8>, ()>)
    requires
        loader.wf(),
    ensures
        res is Ok <==> loader.knows(name@),
        res matches Ok(image) ==> image@ == loader.images@[loader.index_of(name@)]@,
{
    match get_appid_by_name(loader, name) {
        Ok(id) => Ok(copy_bytes(&loader.images[id])),
        Err(_) => Err(()),
    }
}

/// The image of the program named `name` as a fresh vector, or `Err` where
/// no program has that name.
pub fn efs_get_app_elf(loader: &Loader, name: &str) -> (res: Result<Vec<u8>, ()>)
    requires
        loader.wf(),
    ensures
        res is Ok <==> loader.knows(name@),
        res matches Ok(image) ==> image@ == loader.images@[loader.index_of(name@)]@,
{
    _get_app_elf(loader, name)
}

/// The names of the programs, in the order in which they were made known.
pub fn list_apps(loader: &Loader) -> (names: Vec<String>)
    ensures
        names@.len() == loader.names@.len(),
        forall|i: int| 0 <= i < names@.len() ==> (#[trigger] names@[i])@ == loader.names@[i]@,
{
    let mut out: Vec<String> = Vec::new();
    let mut i: usize = 0;
    while i < loader.names.len()
        invariant
            i <= loader.names@.len(),
            out@.len() == i,
            forall|j: int| 0 <= j < i ==> (#[trigger] out@[j])@ == loader.names@[j]@,
        decreases loader.names.len() - i,
    {
        out.push(loader.names[i].clone());
        i += 1;
    }
    out
}

} // verus!
