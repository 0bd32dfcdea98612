//! Startup configuration: the initial query, the input path, and the
//! column-width convention.

use vstd::prelude::*;

verus! {

/// Abstract value of a [`Config`].
pub struct ConfigV {
    pub initial_query: Option<Seq<char>>,
    pub input_file_path: Option<Seq<char>>,
    pub is_cjk: bool,
}

/// What the command line chose at startup.
pub struct Config {
    initial_query: Option<String>,
    input_file_path: Option<String>,
    is_cjk: bool,
}

impl View for Config {
    type V = ConfigV;

    closed spec fn view(&self) -> ConfigV {
        ConfigV {
            initial_query: match self.initial_query {
                Some(ref q) => Some(q@),
                None => None,
            },
            input_file_path: match self.input_file_path {
                Some(ref p) => Some(p@),
                None => None,
            },
            is_cjk: self.is_cjk,
        }
    }
}

impl Config {
    pub fn new(initial_query: Option<String>, input_file_path: Option<String>, is_cjk: bool) -> (c:
        Self)
        ensures
            c@.initial_query == (match initial_query {
                Some(q) => Some(q@),
                None => None::<Seq<char>>,
            }),
            c@.input_file_path == (match input_file_path {
                Some(p) => Some(p@),
                None => None::<Seq<char>>,
            }),
            c@.is_cjk == is_cjk,
    {
        Config { initial_query, input_file_path, is_cjk }
    }

    /// The initial query text, if one was given.
    pub fn initial_query(&self) -> (r: Option<&str>)
        ensures
            r is Some <==> self@.initial_query is Some,
            r matches Some(q) ==> self@.initial_query == Some(q@),
    {
        match self.initial_query {
            Some(ref q) => Some(q.as_str()),
            None => None,
        }
    }

    /// The input path, if one was given.
    pub fn input_file_path(&self) -> (r: Option<&str>)
        ensures
            r is Some <==> self@.input_file_path is Some,
            r matches Some(p) ==> self@.input_file_path == Some(p@),
    {
        match self.input_file_path {
            Some(ref p) => Some(p.as_str()),
            None => None,
        }
    }

    /// Whether columns are counted with the CJK width tables.
    pub fn is_cjk(&self) -> (r: bool)
        ensures
            r == self@.is_cjk,
    {
        self.is_cjk
    }
}

impl Clone for Config {
    /// A copy of the configuration, with the same choices.
    fn clone(&self) -> (r: Self)
        ensures
            r@ == self@,
    {
        Config {
            initial_query: match self.initial_query {
                Some(ref q) => Some(q.clone()),
                None => None,
            },
            input_file_path: match self.input_file_path {
                Some(ref p) => Some(p.clone()),
                None => None,
            },
            is_cjk: self.is_cjk,
        }
    }
}

} // verus!
