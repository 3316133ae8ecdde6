//! The command line: which data file, which directory.
use vstd::prelude::*;

verus! {

/// What a run works on: the data file and the directory of photographs.
pub struct Config {
    pub data_file: String,
    pub dir: String,
}

/// Why the command line was refused.
#[derive(Debug, Clone, Copy, PartialEq, Eq, Structural)]
pub enum ArgumentError {
    /// Not exactly two arguments after the program name.
    WrongArgumentCount,
    /// The directory argument does not name a directory.
    NotADirectory,
}

impl ArgumentError {
    /// A sentence describing the error.
    pub fn message(&self) -> &'static str {
        match self {
            ArgumentError::WrongArgumentCount => "received incorrect number of arguments: need 2",
            ArgumentError::NotADirectory => "given directory path is not a directory",
        }
    }
}

impl Config {
    /// A configuration for the data file `data_file` and the directory `dir`.
    pub fn new(data_file: String, dir: String) -> (r: Config)
        ensures
            r.data_file == data_file,
            r.dir == dir,
    {
        Config { data_file, dir }
    }

    /// Builds the configuration from the program's arguments: the program
    /// name, the data file and the directory. `dir_is_directory` tells
    /// whether the third argument names an existing directory.
    pub fn from_args(args: &[String], dir_is_directory: bool) -> (r: Result<Config, ArgumentError>)
        ensures
            args@.len() != 3 ==> r == Err::<Config, _>(ArgumentError::WrongArgumentCount),
            args@.len() == 3 && !dir_is_directory ==> r == Err::<Config, _>(
                ArgumentError::NotADirectory,
            ),
            args@.len() == 3 && dir_is_directory ==> (r matches Ok(c) && c.data_file == args@[1]
                && c.dir == args@[2]),
    {
        if args.len() != 3 {
            return Err(ArgumentError::WrongArgumentCount);
        }
        let data_file = args[1].clone();
        let dir = args[2].clone();
        if !dir_is_directory {
            return Err(ArgumentError::NotADirectory);
        }
        Ok(Config::new(data_file, dir))
    }
}

} // verus!
