//! Parsing of the installed-package listing that the external system
//! collaborator prints: one package per line, its name then its version,
//! separated by blanks. Lines without any token are skipped; a missing
//! version token is left empty.

use vstd::prelude::*;

use crate::codec::string_views;
use crate::record::{installed_views, InstalledPackage, InstalledV};
use crate::text::{chars_to_string, str_eq, str_to_chars};

verus! {

/// Blank characters separating tokens within a line.
pub open spec fn is_blank(c: char) -> bool {
    c == ' ' || c == '\t' || c == '\r'
}

/// The entry a finished line contributes: nothing for an empty line,
/// else its first token as name and its second, if any, as version.
pub open spec fn line_entry(tokens: Seq<Seq<char>>) -> Seq<InstalledV> {
    if tokens.len() == 0 {
        Seq::<InstalledV>::empty()
    } else {
        seq![
            InstalledV {
                name: tokens[0],
                version: if tokens.len() > 1 {
                    tokens[1]
                } else {
                    Seq::<char>::empty()
                },
            },
        ]
    }
}

/// The tokens of the current line once the pending token is closed.
pub open spec fn close_token(tokens: Seq<Seq<char>>, tok: Seq<char>) -> Seq<Seq<char>> {
    if tok.len() > 0 {
        tokens.push(tok)
    } else {
        tokens
    }
}

/// The listing parser, character by character: `tokens` are the finished
/// tokens of the current line, `tok` the token being read, `acc` the
/// entries of the finished lines.
pub open spec fn spec_listing_from(
    s: Seq<char>,
    pos: int,
    tokens: Seq<Seq<char>>,
    tok: Seq<char>,
    acc: Seq<InstalledV>,
) -> Seq<InstalledV>
    decreases s.len() - pos,
{
    if pos < 0 || pos >= s.len() {
        acc + line_entry(close_token(tokens, tok))
    } else if s[pos] == '\n' {
        spec_listing_from(
            s,
            pos + 1,
            Seq::<Seq<char>>::empty(),
            Seq::<char>::empty(),
            acc + line_entry(close_token(tokens, tok)),
        )
    } else if is_blank(s[pos]) {
        spec_listing_from(s, pos + 1, close_token(tokens, tok), Seq::<char>::empty(), acc)
    } else {
        spec_listing_from(s, pos + 1, tokens, tok.push(s[pos]), acc)
    }
}

/// The installed packages a listing text describes.
pub open spec fn spec_parse_listing(s: Seq<char>) -> Seq<InstalledV> {
    spec_listing_from(
        s,
        0,
        Seq::<Seq<char>>::empty(),
        Seq::<char>::empty(),
        Seq::<InstalledV>::empty(),
    )
}

/// Parses the listing text into installed packages, exactly as
/// [`spec_parse_listing`] describes; every entry has a non-empty name.
pub fn get_installed_packages(listing: &str) -> (r: Vec<InstalledPackage>)
    ensures
        installed_views(r@) == spec_parse_listing(listing@),
        forall|i: int| 0 <= i < r@.len() ==> (#[trigger] r@[i]).wf(),
{
    let cs = str_to_chars(listing);
    let mut tokens: Vec<String> = Vec::new();
    let mut tok: Vec<char> = Vec::new();
    let mut acc: Vec<InstalledPackage> = Vec::new();
    proof {
        assert(string_views(tokens@) =~= Seq::<Seq<char>>::empty());
        assert(installed_views(acc@) =~= Seq::<InstalledV>::empty());
    }
    let mut i: usize = 0;
    while i < cs.len()
        invariant
            cs@ == listing@,
            i <= cs@.len(),
            forall|t: int| 0 <= t < tokens@.len() ==> (#[trigger] tokens@[t])@.len() > 0,
            forall|t: int| 0 <= t < acc@.len() ==> (#[trigger] acc@[t]).wf(),
            spec_parse_listing(listing@) == spec_listing_from(
                cs@,
                i as int,
                string_views(tokens@),
                tok@,
                installed_views(acc@),
            ),
        decreases cs@.len() - i,
    {
        let c = cs[i];
        let ghost old_tokens = string_views(tokens@);
        let ghost old_tok = tok@;
        let ghost old_acc = installed_views(acc@);
        if c == '\n' {
            if tok.len() > 0 {
                tokens.push(chars_to_string(&tok));
                tok.clear();
            }
            proof {
                assert(string_views(tokens@) =~= close_token(old_tokens, old_tok));
            }
            let ghost line_tokens = string_views(tokens@);
            if tokens.len() > 0 {
                let name = tokens[0].clone();
                let version = if tokens.len() > 1 {
                    tokens[1].clone()
                } else {
                    String::new()
                };
                acc.push(InstalledPackage { name, version });
                proof {
                    assert(installed_views(acc@) =~= old_acc + line_entry(line_tokens));
                }
            } else {
                proof {
                    assert(installed_views(acc@) =~= old_acc + line_entry(line_tokens));
                }
            }
            tokens.clear();
            tok.clear();
            proof {
                assert(string_views(tokens@) =~= Seq::<Seq<char>>::empty());
                assert(tok@ =~= Seq::<char>::empty());
                assert(spec_listing_from(cs@, i as int, old_tokens, old_tok, old_acc)
                    == spec_listing_from(
                    cs@,
                    i as int + 1,
                    Seq::<Seq<char>>::empty(),
                    Seq::<char>::empty(),
                    old_acc + line_entry(close_token(old_tokens, old_tok)),
                ));
            }
        } else if c == ' ' || c == '\t' || c == '\r' {
            if tok.len() > 0 {
                tokens.push(chars_to_string(&tok));
                tok.clear();
            }
            proof {
                assert(string_views(tokens@) =~= close_token(old_tokens, old_tok));
                assert(tok@ =~= Seq::<char>::empty());
                assert(spec_listing_from(cs@, i as int, old_tokens, old_tok, old_acc)
                    == spec_listing_from(
                    cs@,
                    i as int + 1,
                    close_token(old_tokens, old_tok),
                    Seq::<char>::empty(),
                    old_acc,
                ));
            }
        } else {
            tok.push(c);
            proof {
                assert(spec_listing_from(cs@, i as int, old_tokens, old_tok, old_acc)
                    == spec_listing_from(cs@, i as int + 1, old_tokens, old_tok.push(c), old_acc));
            }
        }
        i = i + 1;
    }
    let ghost old_tokens = string_views(tokens@);
    let ghost old_tok = tok@;
    let ghost old_acc = installed_views(acc@);
    if tok.len() > 0 {
        tokens.push(chars_to_string(&tok));
    }
    proof {
        assert(string_views(tokens@) =~= close_token(old_tokens, old_tok));
    }
    let ghost line_tokens = string_views(tokens@);
    if tokens.len() > 0 {
        let name = tokens[0].clone();
        let version = if tokens.len() > 1 {
            tokens[1].clone()
        } else {
            String::new()
        };
        acc.push(InstalledPackage { name, version });
        proof {
            assert(installed_views(acc@) =~= old_acc + line_entry(line_tokens));
        }
    } else {
        proof {
            assert(installed_views(acc@) =~= old_acc + line_entry(line_tokens));
        }
    }
    acc
}

/// The first listed package bearing `name`, if any.
pub open spec fn spec_find_installed(entries: Seq<InstalledV>, name: Seq<char>, j: int) -> Option<
    InstalledV,
>
    decreases entries.len() - j,
{
    if j < 0 || j >= entries.len() {
        None::<InstalledV>
    } else if entries[j].name == name {
        Some(entries[j])
    } else {
        spec_find_installed(entries, name, j + 1)
    }
}

/// Which of the requested packages the listing shows as installed: all
/// of them, or the names of those missing.
pub open spec fn spec_check_installed(names: Seq<Seq<char>>, entries: Seq<InstalledV>) -> Result<
    Seq<InstalledV>,
    Seq<Seq<char>>,
>
    decreases names.len(),
{
    if names.len() == 0 {
        Ok(Seq::<InstalledV>::empty())
    } else {
        let last = names.last();
        let prev = spec_check_installed(names.drop_last(), entries);
        match spec_find_installed(entries, last, 0) {
            Some(e) => match prev {
                Ok(found) => Ok(found.push(e)),
                Err(missing) => Err(missing),
            },
            None => match prev {
                Ok(_) => Err(seq![last]),
                Err(missing) => Err(missing.push(last)),
            },
        }
    }
}

/// Finds each requested package in the parsed listing: all entries when
/// every package is installed, otherwise the missing names, in request
/// order.
pub fn check_if_packages_installed(packages: &Vec<String>, entries: &Vec<InstalledPackage>) -> (r:
    Result<Vec<InstalledPackage>, Vec<String>>)
    ensures
        match r {
            Ok(found) => spec_check_installed(
                string_views(packages@),
                installed_views(entries@),
            ) == Ok::<Seq<InstalledV>, Seq<Seq<char>>>(installed_views(found@)),
            Err(missing) => spec_check_installed(
                string_views(packages@),
                installed_views(entries@),
            ) == Err::<Seq<InstalledV>, Seq<Seq<char>>>(string_views(missing@)),
        },
{
    let ghost names = string_views(packages@);
    let ghost ev = installed_views(entries@);
    let mut found: Vec<InstalledPackage> = Vec::new();
    let mut missing: Vec<String> = Vec::new();
    proof {
        assert(installed_views(found@) =~= Seq::<InstalledV>::empty());
        assert(string_views(missing@) =~= Seq::<Seq<char>>::empty());
        assert(names.subrange(0, 0) =~= Seq::<Seq<char>>::empty());
    }
    let mut i: usize = 0;
    while i < packages.len()
        invariant
            names == string_views(packages@),
            ev == installed_views(entries@),
            i <= names.len(),
            missing@.len() == 0 ==> spec_check_installed(names.subrange(0, i as int), ev)
                == Ok::<Seq<InstalledV>, Seq<Seq<char>>>(installed_views(found@)),
            missing@.len() > 0 ==> spec_check_installed(names.subrange(0, i as int), ev)
                == Err::<Seq<InstalledV>, Seq<Seq<char>>>(string_views(missing@)),
        decreases names.len() - i,
    {
        let name = &packages[i];
        proof {
            assert(names[i as int] == name@);
        }
        let mut j: usize = 0;
        let mut hit: Option<usize> = None;
        while j < entries.len() && hit.is_none()
            invariant
                ev == installed_views(entries@),
                j <= ev.len(),
                (match hit {
                    Some(t) => t < ev.len() && spec_find_installed(ev, name@, 0) == Some(
                        ev[t as int],
                    ) && ev[t as int].name == name@,
                    None => spec_find_installed(ev, name@, 0) == spec_find_installed(
                        ev,
                        name@,
                        j as int,
                    ),
                }),
            decreases ev.len() - j,
        {
            proof {
                assert(ev[j as int] == entries@[j as int]@);
            }
            if str_eq(entries[j].name.as_str(), name.as_str()) {
                proof {
                    assert(spec_find_installed(ev, name@, j as int) == Some(ev[j as int]));
                }
                hit = Some(j);
            }
            j = j + 1;
        }
        match hit {
            Some(t) => {
                let ghost old_found = installed_views(found@);
                found.push(entries[t].duplicate());
                proof {
                    assert(ev[t as int] == entries@[t as int]@);
                    assert(installed_views(found@) =~= old_found.push(entries@[t as int]@));
                }
            },
            None => {
                let ghost old_missing = string_views(missing@);
                missing.push(name.clone());
                proof {
                    assert(string_views(missing@) =~= old_missing.push(name@));
                    if old_missing.len() == 0 {
                        assert(old_missing =~= Seq::<Seq<char>>::empty());
                        assert(old_missing.push(name@) =~= seq![name@]);
                    }
                }
            },
        }
        i = i + 1;
        proof {
            let pre = names.subrange(0, i as int);
            assert(pre.drop_last() =~= names.subrange(0, i as int - 1));
            assert(pre.last() == names[i as int - 1]);
        }
    }
    proof {
        assert(names.subrange(0, names.len() as int) =~= names);
    }
    if missing.len() == 0 {
        Ok(found)
    } else {
        Err(missing)
    }
}

} // verus!
