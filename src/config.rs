use vstd::prelude::*;

verus! {

/// What the program is run on: the path of the file whose lines are paired.
pub struct Config {
    file: String,
}

impl Config {
    pub closed spec fn file_spec(&self) -> Seq<char> {
        self.file@
    }

    pub fn new(file: String) -> (r: Config)
        ensures
            r.file_spec() == file@,
    {
        Config { file }
    }

    pub fn file(&self) -> (r: &str)
        ensures
            r@ == self.file_spec(),
    {
        self.file.as_str()
    }
}

} // verus!
