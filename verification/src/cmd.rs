//! The parsed command line of the flag-style interface: one leading flag
//! argument followed by its values, paired with the user's settings.

use vstd::prelude::*;

use crate::codec::string_views;
use crate::settings::Settings;

verus! {

/// A parsed invocation: the flag, its values, and the settings in force.
#[derive(Debug)]
pub struct Config {
    arg: String,
    values: Vec<String>,
    settings: Settings,
}

impl Config {
    /// The flag argument.
    pub closed spec fn spec_arg(&self) -> Seq<char> {
        self.arg@
    }

    /// The value arguments after the flag.
    pub closed spec fn spec_values(&self) -> Seq<Seq<char>> {
        string_views(self.values@)
    }

    /// The settings carried along.
    pub closed spec fn spec_settings(&self) -> Settings {
        self.settings
    }

    /// Parses the argument list: the first argument must exist and start
    /// with a dash, and everything after it is a value.
    pub fn build(args: &Vec<String>, settings: Settings) -> (r: Result<Config, &'static str>)
        ensures
            match r {
                Ok(c) => {
                    &&& args@.len() > 0
                    &&& args@[0]@.len() > 0
                    &&& args@[0]@[0] == '-'
                    &&& c.spec_arg() == args@[0]@
                    &&& c.spec_values() == string_views(args@.skip(1))
                    &&& c.spec_settings() == settings
                },
                Err(e) => {
                    &&& (args@.len() == 0 || args@[0]@.len() == 0 || args@[0]@[0] != '-')
                    &&& e@ == "usage"@
                },
            },
    {
        if args.len() == 0 {
            return Err("usage");
        }
        let first = &args[0];
        if first.as_str().unicode_len() == 0 || first.as_str().get_char(0) != '-' {
            return Err("usage");
        }
        let arg = first.clone();
        let mut values: Vec<String> = Vec::new();
        proof {
            assert(string_views(values@) =~= string_views(args@.skip(1)).subrange(0, 0));
        }
        let mut i: usize = 1;
        while i < args.len()
            invariant
                1 <= i <= args@.len(),
                string_views(values@) == string_views(args@.skip(1)).subrange(0, i as int - 1),
            decreases args@.len() - i,
        {
            let ghost old_values = values@;
            values.push(args[i].clone());
            i = i + 1;
            proof {
                assert(string_views(values@) =~= string_views(old_values).push(
                    args@[i as int - 1]@,
                ));
                assert(string_views(args@.skip(1)).subrange(0, i as int - 1) =~= string_views(
                    args@.skip(1),
                ).subrange(0, i as int - 2).push(args@[i as int - 1]@));
            }
        }
        proof {
            assert(string_views(values@) =~= string_views(args@.skip(1)));
        }
        Ok(Config { arg, values, settings })
    }

    /// The flag argument.
    pub fn get_arg(&self) -> (r: &str)
        ensures
            r@ == self.spec_arg(),
    {
        self.arg.as_str()
    }

    /// The value arguments.
    pub fn get_values(&self) -> (r: &Vec<String>)
        ensures
            string_views(r@) == self.spec_values(),
    {
        &self.values
    }

    /// The settings carried along.
    pub fn get_settings(&self) -> (r: &Settings)
        ensures
            *r == self.spec_settings(),
    {
        &self.settings
    }
}

} // verus!
