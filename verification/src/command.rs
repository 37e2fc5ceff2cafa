//! The command builder: a configuration of home directory, executable
//! path and requested items, assembled step by step, and the subprocess
//! invocation it demands — login bookend, one download directive per
//! item, quit bookend.

use vstd::prelude::*;
use vstd::string::*;
use crate::digits::{decimal_string, spec_decimal};
use crate::events::{lemma_views_push, views_of, Item};

verus! {

/// The download-directive arguments demanded by a list of requested
/// items, in configuration order: for each item the directive word, then
/// its decimal application identifier, then its decimal item identifier.
pub open spec fn items_args(items: Seq<Item>) -> Seq<Seq<char>>
    decreases items.len(),
{
    if items.len() == 0 {
        Seq::empty()
    } else {
        items_args(items.drop_last()) + seq![
            "+workshop_download_item"@,
            spec_decimal(items.last().game.0 as nat),
            spec_decimal(items.last().item.0 as nat),
        ]
    }
}

/// The whole argument sequence handed to the subprocess.
pub open spec fn spec_args(items: Seq<Item>) -> Seq<Seq<char>> {
    seq!["+login"@, "anonymous"@] + items_args(items) + seq!["+quit"@]
}

/// In the download-directive arguments, the block of item `j` stands at
/// position `3j`: the directive word, then the item's two decimal
/// identifiers.
pub open spec fn directive_block_at(items: Seq<Item>, j: int) -> bool {
    &&& items_args(items)[3 * j] == "+workshop_download_item"@
    &&& items_args(items)[3 * j + 1] == spec_decimal(items[j].game.0 as nat)
    &&& items_args(items)[3 * j + 2] == spec_decimal(items[j].item.0 as nat)
}

/// In the whole argument sequence, the block of item `j` stands at
/// position `2 + 3j`, after the two login arguments.
pub open spec fn args_block_at(items: Seq<Item>, j: int) -> bool {
    &&& spec_args(items)[2 + 3 * j] == "+workshop_download_item"@
    &&& spec_args(items)[3 + 3 * j] == spec_decimal(items[j].game.0 as nat)
    &&& spec_args(items)[4 + 3 * j] == spec_decimal(items[j].item.0 as nat)
}

/// A configured launch: where the tool keeps its directory, where its
/// binary is, and which items to download, in order.
#[derive(Debug)]
pub struct Steam {
    /// Where the tool should place its directory relative to.
    pub home: String,
    /// Where the tool's binary is located.
    pub exe: String,
    /// The items to download, in configuration order.
    pub items: Vec<Item>,
}

/// The configuration field that was never given a value.
#[derive(Debug, Clone, Copy, PartialEq, Eq, Structural)]
pub enum SteamBuilderError {
    UninitializedHome,
    UninitializedExe,
    UninitializedItems,
}

/// Step-by-step assembly of a [`Steam`] configuration.
#[derive(Debug)]
pub struct SteamBuilder {
    pub home: Option<String>,
    pub exe: Option<String>,
    pub items: Option<Vec<Item>>,
}

impl SteamBuilder {
    /// Set the home directory.
    pub fn home(self, home: String) -> (r: SteamBuilder)
        ensures
            r.home is Some && r.home->0@ == home@,
            r.exe == self.exe,
            r.items == self.items,
    {
        SteamBuilder { home: Some(home), exe: self.exe, items: self.items }
    }

    /// Set the executable path.
    pub fn exe(self, exe: String) -> (r: SteamBuilder)
        ensures
            r.exe is Some && r.exe->0@ == exe@,
            r.home == self.home,
            r.items == self.items,
    {
        SteamBuilder { home: self.home, exe: Some(exe), items: self.items }
    }

    /// Append one requested item, starting the list when none was begun.
    pub fn add_item(self, item: Item) -> (r: SteamBuilder)
        ensures
            r.items is Some,
            self.items is Some ==> r.items->0@ == self.items->0@.push(item),
            self.items is None ==> r.items->0@ == seq![item],
            r.home == self.home,
            r.exe == self.exe,
    {
        let items = match self.items {
            Some(mut items) => {
                items.push(item);
                items
            },
            None => {
                let mut items: Vec<Item> = Vec::new();
                items.push(item);
                proof {
                    assert(items@ =~= seq![item]);
                }
                items
            },
        };
        SteamBuilder { home: self.home, exe: self.exe, items: Some(items) }
    }

    /// Finish the assembly; each field must have been given a value, and
    /// the first missing one is reported.
    pub fn build(self) -> (r: Result<Steam, SteamBuilderError>)
        ensures
            r is Ok <==> self.home is Some && self.exe is Some && self.items is Some,
            r is Ok ==> {
                &&& (r->Ok_0).home == self.home->0
                &&& (r->Ok_0).exe == self.exe->0
                &&& (r->Ok_0).items == self.items->0
            },
            self.home is None ==> r == Result::<Steam, SteamBuilderError>::Err(
                SteamBuilderError::UninitializedHome,
            ),
            self.home is Some && self.exe is None ==> r == Result::<Steam, SteamBuilderError>::Err(
                SteamBuilderError::UninitializedExe,
            ),
            self.home is Some && self.exe is Some && self.items is None ==> r == Result::<
                Steam,
                SteamBuilderError,
            >::Err(SteamBuilderError::UninitializedItems),
    {
        let home = match self.home {
            Some(h) => h,
            None => {
                return Err(SteamBuilderError::UninitializedHome);
            },
        };
        let exe = match self.exe {
            Some(e) => e,
            None => {
                return Err(SteamBuilderError::UninitializedExe);
            },
        };
        let items = match self.items {
            Some(i) => i,
            None => {
                return Err(SteamBuilderError::UninitializedItems);
            },
        };
        Ok(Steam { home, exe, items })
    }
}

/// A fully-formed subprocess invocation description. Nothing here
/// executes anything; the caller starts the process.
#[derive(Debug)]
pub struct Invocation {
    /// The program to start.
    pub program: String,
    /// Its argument vector, in order.
    pub args: Vec<String>,
    /// The working directory for the child process.
    pub current_dir: String,
    /// A `HOME` value for the caller to set directly on the child, on
    /// platforms with native per-process environment control; `None`
    /// when the wrapper in `args` already carries it.
    pub home_env: Option<String>,
}

impl Steam {
    /// Begin assembling a configuration.
    pub fn builder() -> (r: SteamBuilder)
        ensures
            r.home is None,
            r.exe is None,
            r.items is None,
    {
        SteamBuilder { home: None, exe: None, items: None }
    }

    /// The subprocess arguments: the anonymous-login bookend, one
    /// download directive per configured item in order, then the quit
    /// bookend. Identifiers are rendered as plain decimal text.
    pub fn args(&self) -> (v: Vec<String>)
        ensures
            views_of(v@) == spec_args(self.items@),
    {
        let mut v: Vec<String> = Vec::new();
        let t_login = String::from_str("+login");
        proof {
            lemma_views_push(v@, t_login);
        }
        v.push(t_login);
        let t_anon = String::from_str("anonymous");
        proof {
            lemma_views_push(v@, t_anon);
        }
        v.push(t_anon);
        proof {
            assert(self.items@.subrange(0, 0) =~= Seq::<Item>::empty());
            assert(views_of(v@) =~= seq!["+login"@, "anonymous"@] + items_args(
                self.items@.subrange(0, 0),
            ));
        }
        let mut idx: usize = 0;
        while idx < self.items.len()
            invariant
                idx <= self.items@.len(),
                views_of(v@) == seq!["+login"@, "anonymous"@] + items_args(
                    self.items@.subrange(0, idx as int),
                ),
            decreases self.items@.len() - idx,
        {
            let it = self.items[idx];
            let t_dir = String::from_str("+workshop_download_item");
            proof {
                lemma_views_push(v@, t_dir);
            }
            v.push(t_dir);
            let t_game = decimal_string(it.game.0);
            proof {
                lemma_views_push(v@, t_game);
            }
            v.push(t_game);
            let t_item = decimal_string(it.item.0);
            proof {
                lemma_views_push(v@, t_item);
            }
            v.push(t_item);
            proof {
                let pre = self.items@.subrange(0, idx as int);
                let post = self.items@.subrange(0, idx + 1);
                assert(post.drop_last() =~= pre);
                assert(post.last() == self.items@[idx as int]);
                assert(views_of(v@) =~= seq!["+login"@, "anonymous"@] + items_args(post));
            }
            idx = idx + 1;
        }
        let t_quit = String::from_str("+quit");
        proof {
            lemma_views_push(v@, t_quit);
            assert(self.items@.subrange(0, self.items@.len() as int) =~= self.items@);
        }
        v.push(t_quit);
        proof {
            assert(views_of(v@) =~= spec_args(self.items@));
        }
        v
    }

    /// The fully-formed invocation. With `use_env_wrapper` the target
    /// executable is wrapped in an environment-setting launcher whose
    /// first argument carries `HOME`; without it the executable is
    /// invoked directly and the `HOME` value is handed back for the
    /// caller to set on the child itself. Either way the child runs in
    /// the configured home directory.
    pub fn invocation(&self, use_env_wrapper: bool) -> (inv: Invocation)
        ensures
            inv.current_dir@ == self.home@,
            use_env_wrapper ==> {
                &&& inv.program@ == "env"@
                &&& views_of(inv.args@) == seq!["HOME="@ + self.home@, self.exe@] + spec_args(
                    self.items@,
                )
                &&& inv.home_env is None
            },
            !use_env_wrapper ==> {
                &&& inv.program@ == self.exe@
                &&& views_of(inv.args@) == spec_args(self.items@)
                &&& inv.home_env is Some && inv.home_env->0@ == self.home@
            },
    {
        let mut args = self.args();
        if use_env_wrapper {
            let mut v: Vec<String> = Vec::new();
            let mut home_arg = String::from_str("HOME=");
            home_arg.append(self.home.as_str());
            proof {
                lemma_views_push(v@, home_arg);
            }
            v.push(home_arg);
            let exe_arg = self.exe.clone();
            proof {
                lemma_views_push(v@, exe_arg);
            }
            v.push(exe_arg);
            proof {
                assert(views_of(v@) =~= seq!["HOME="@ + self.home@, self.exe@]);
            }
            v.append(&mut args);
            proof {
                assert(views_of(v@) =~= seq!["HOME="@ + self.home@, self.exe@] + spec_args(
                    self.items@,
                ));
            }
            Invocation {
                program: String::from_str("env"),
                args: v,
                current_dir: self.home.clone(),
                home_env: None,
            }
        } else {
            Invocation {
                program: self.exe.clone(),
                args,
                current_dir: self.home.clone(),
                home_env: Some(self.home.clone()),
            }
        }
    }
}

/// With no items configured, the argument sequence is exactly the two
/// login arguments and the quit directive.
pub proof fn lemma_args_empty_items(items: Seq<Item>)
    requires
        items.len() == 0,
    ensures
        spec_args(items) == seq!["+login"@, "anonymous"@, "+quit"@],
{
    assert(spec_args(items) =~= seq!["+login"@, "anonymous"@, "+quit"@]);
}

proof fn lemma_directive_not_decimal(n: nat)
    ensures
        spec_decimal(n) != "+workshop_download_item"@,
{
    reveal_strlit("+workshop_download_item");
    crate::digits::lemma_decimal_digits(n);
    if spec_decimal(n) == "+workshop_download_item"@ {
        assert(crate::digits::is_digit(spec_decimal(n)[0]));
        assert("+workshop_download_item"@[0] == '+');
        assert(!crate::digits::is_digit('+'));
    }
}

proof fn lemma_items_args_shape(items: Seq<Item>)
    ensures
        items_args(items).len() == 3 * items.len(),
        forall|j: int| 0 <= j < items.len() ==> #[trigger] directive_block_at(items, j),
        forall|q: int|
            #![trigger items_args(items)[q]]
            0 <= q < items_args(items).len() && items_args(items)[q]
                == "+workshop_download_item"@ ==> q % 3 == 0,
    decreases items.len(),
{
    if items.len() > 0 {
        lemma_items_args_shape(items.drop_last());
    }
    assert(items_args(items).len() == 3 * items.len());
    assert forall|j: int| 0 <= j < items.len() implies #[trigger] directive_block_at(
        items,
        j,
    ) by {
        let pre = items.drop_last();
        if j < items.len() - 1 {
            assert(directive_block_at(pre, j));
            assert(items_args(items)[3 * j] == items_args(pre)[3 * j]);
            assert(items_args(items)[3 * j + 1] == items_args(pre)[3 * j + 1]);
            assert(items_args(items)[3 * j + 2] == items_args(pre)[3 * j + 2]);
            assert(pre[j] == items[j]);
        } else {
            assert(items_args(items)[3 * j] == "+workshop_download_item"@);
            assert(items_args(items)[3 * j + 1] == spec_decimal(items.last().game.0 as nat));
            assert(items_args(items)[3 * j + 2] == spec_decimal(items.last().item.0 as nat));
            assert(items.last() == items[j]);
        }
    };
    assert forall|q: int|
        #![trigger items_args(items)[q]]
        0 <= q < items_args(items).len() && items_args(items)[q]
            == "+workshop_download_item"@ implies q % 3 == 0 by {
        let pre = items.drop_last();
        if q < 3 * pre.len() {
            assert(items_args(items)[q] == items_args(pre)[q]);
        } else if q == 3 * pre.len() {
            vstd::arithmetic::div_mod::lemma_mod_multiples_basic(pre.len() as int, 3);
        } else {
            lemma_directive_not_decimal(items.last().game.0 as nat);
            lemma_directive_not_decimal(items.last().item.0 as nat);
            assert(q == 3 * pre.len() + 1 || q == 3 * pre.len() + 2);
            assert(false);
        }
    };
}

/// With `N` items configured, exactly `N` download directives appear:
/// one opening the block of each item `j` at position `2 + 3j`,
/// immediately followed by the item's decimal application identifier and
/// then its decimal item identifier; every occurrence of the directive
/// word stands at such a position.
pub proof fn lemma_args_item_directives(items: Seq<Item>)
    ensures
        spec_args(items).len() == 3 + 3 * items.len(),
        forall|j: int| 0 <= j < items.len() ==> #[trigger] args_block_at(items, j),
        forall|q: int|
            #![trigger spec_args(items)[q]]
            0 <= q < spec_args(items).len() && spec_args(items)[q]
                == "+workshop_download_item"@ ==> 2 <= q < spec_args(items).len() - 1 && (q - 2) % 3
                == 0,
{
    lemma_items_args_shape(items);
    assert forall|j: int| 0 <= j < items.len() implies #[trigger] args_block_at(items, j) by {
        assert(directive_block_at(items, j));
        assert(spec_args(items)[2 + 3 * j] == items_args(items)[3 * j]);
        assert(spec_args(items)[3 + 3 * j] == items_args(items)[3 * j + 1]);
        assert(spec_args(items)[4 + 3 * j] == items_args(items)[3 * j + 2]);
    };
    reveal_strlit("+workshop_download_item");
    reveal_strlit("+login");
    reveal_strlit("anonymous");
    reveal_strlit("+quit");
    assert forall|q: int|
        #![trigger spec_args(items)[q]]
        0 <= q < spec_args(items).len() && spec_args(items)[q]
            == "+workshop_download_item"@ implies 2 <= q < spec_args(items).len() - 1 && (q - 2) % 3
        == 0 by {
        if q == 0 {
            assert("+login"@.len() == 6 && "+workshop_download_item"@.len() == 23);
            assert(false);
        } else if q == 1 {
            assert("anonymous"@.len() == 9);
            assert(false);
        } else if q == spec_args(items).len() - 1 {
            assert("+quit"@.len() == 5);
            assert(false);
        } else {
            assert(spec_args(items)[q] == items_args(items)[q - 2]);
        }
    };
}

} // verus!
