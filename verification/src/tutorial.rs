//! A paged tutorial: a fixed, ordered set of named pages and a cursor that
//! moves forwards and backwards through them, wrapping round at either end.

use vstd::prelude::*;
use crate::error::CliError;

verus! {

/// The text of the tutorial page `start`.
pub const PAGE_START: &'static str = "
Couchbase Shell (or cbsh) is a tool to access and work with Couchbase Server.

cbsh is a real shell, like sh or bash, but is aware of structured or tabular data, as it is built upon the open-source Nushell project.

Try typing...

ls

...to get a directory listing, and notice that the output is a table.

To navigate the tutorial you can use 'tutorial next' to proceed, 'tutorial previous' to go back, or 'tutorial page <name>' to go to a specific page.
You can try out different commands and your current step will be remembered.

Try running 'tutorial next' now to move to the next step of the tutorial.
    ";

/// The text of the tutorial page `overview`.
pub const PAGE_OVERVIEW: &'static str = "
cbsh is connected to one or more Couchbase Server clusters.

Try 'nodes' to list the nodes in the active cluster.

Try 'buckets' to list the buckets in the active cluster.

And, use 'tutorial next' to move to the next step in the tutorial.
    ";

/// The text of the tutorial page `doc`.
pub const PAGE_DOC: &'static str = "
You can retrieve documents by using the 'doc get KEY' command.
We're going to use document names from the \"travel-sample\" bucket which you can load within the Couchbase Server settings.

Try...

  doc get airline_10

The doc command also takes optional flags in order to
format or reshape the output data.

Try...

  doc get airline_10 --flatten

To learn more, try 'help doc' and 'help doc get'.

Use 'tutorial next' to move to the next step in the tutorial.
    ";

/// The text of the tutorial page `pipeline`.
pub const PAGE_PIPELINE: &'static str = "
Commands in cbsh can be pipelined into a chain of commands.
We're using the \"travel-sample\" bucket which you can load within the Couchbase Server settings.

Try...

  buckets | where name =~ \"travel\"

That pipes the tabular output of the buckets command to the where command.

Try...

  buckets | where name =~ \"sample\" | to json --pretty 2

Use 'tutorial next' to move to the next step in the tutorial.
    ";

/// The text of the tutorial page `query`.
pub const PAGE_QUERY: &'static str = "
You can use the query command to run N1QL queries (or SQL for JSON queries) against the Couchbase Server database.
We're using the \"travel-sample\" bucket which you can load within the Couchbase Server settings.

Try...

    query 'SELECT name, callsign FROM `travel-sample` LIMIT 5'

And, you can pipe the tabular data to commands like save...

    query 'SELECT name, callsign FROM `travel-sample` LIMIT 5' | save output.csv

Which you can then see the contents of (note that the output has automatically been formatted to csv)...

    cat output.csv

You can try the same for other formats too, such as JSON.
Try 'to --help' to see the available formats.

Use 'tutorial next' to move to the next step in the tutorial.
    ";

/// The text of the tutorial page `conclusion`.
pub const PAGE_CONCLUSION: &'static str = "
The Couchbase Shell can do a lot more, including...

- create, retrieve, update and delete JSON docs from the database.

- import and export JSON documents into / out-from the database.

- execute N1QL (e.g., SQL for JSON) queries.

- manage clusters, buckets, stats and system setup.

- and much more...

That's it for this quick tutorial!

For more info, please see the cbsh documentation at...

    http://couchbase.sh/docs/
    ";

/// The names of the pages, in the order the tutorial shows them.
pub open spec fn step_name(i: int) -> Seq<char> {
    if i == 0 {
        "start"@
    } else if i == 1 {
        "overview"@
    } else if i == 2 {
        "doc"@
    } else if i == 3 {
        "pipeline"@
    } else if i == 4 {
        "query"@
    } else {
        "conclusion"@
    }
}

/// The text of page `i`.
pub open spec fn step_body(i: int) -> Seq<char> {
    if i == 0 {
        PAGE_START@
    } else if i == 1 {
        PAGE_OVERVIEW@
    } else if i == 2 {
        PAGE_DOC@
    } else if i == 3 {
        PAGE_PIPELINE@
    } else if i == 4 {
        PAGE_QUERY@
    } else {
        PAGE_CONCLUSION@
    }
}

/// How many pages the tutorial has.
pub open spec fn step_count() -> int {
    6
}

/// What the tutorial prints for page `i`: `Page <name>: <text>`.
pub open spec fn page_text(i: int) -> Seq<char> {
    "Page "@ + step_name(i) + ": "@ + step_body(i)
}

/// The page after page `i`, wrapping from the last page to the first.
pub open spec fn next_index(i: int) -> int {
    if i + 1 > step_count() - 1 {
        0
    } else {
        i + 1
    }
}

/// The page before page `i`, wrapping from the first page to the last.
pub open spec fn prev_index(i: int) -> int {
    if i - 1 < 0 {
        step_count() - 1
    } else {
        i - 1
    }
}

/// The position of the first page called `name`, if any.
pub open spec fn step_index(name: Seq<char>) -> Option<int> {
    if name == step_name(0) {
        Some(0)
    } else if name == step_name(1) {
        Some(1)
    } else if name == step_name(2) {
        Some(2)
    } else if name == step_name(3) {
        Some(3)
    } else if name == step_name(4) {
        Some(4)
    } else if name == step_name(5) {
        Some(5)
    } else {
        None
    }
}


/// The page after `k` times `next` from page `i`.
pub open spec fn next_times(i: int, k: nat) -> int
    decreases k,
{
    if k == 0 {
        i
    } else {
        next_index(next_times(i, (k - 1) as nat))
    }
}

/// Going forward one page and then back one page returns to the page one started on.
pub proof fn next_then_prev_returns(i: int)
    requires
        0 <= i < step_count(),
    ensures
        prev_index(next_index(i)) == i,
{
}

/// Going back one page and then forward one page returns to the page one started on.
pub proof fn prev_then_next_returns(i: int)
    requires
        0 <= i < step_count(),
    ensures
        next_index(prev_index(i)) == i,
{
}

/// Every page move stays within the tutorial's pages.
pub proof fn moves_stay_in_range(i: int)
    requires
        0 <= i < step_count(),
    ensures
        0 <= next_index(i) < step_count(),
        0 <= prev_index(i) < step_count(),
{
}

/// Going forward as many times as there are pages returns to the page one started on.
pub proof fn next_cycles_through_all_pages(i: int)
    requires
        0 <= i < step_count(),
    ensures
        next_times(i, step_count() as nat) == i,
{
    reveal_with_fuel(next_times, 7);
}

/// Going to a page by the name that `step_names` lists for it lands on that page.
pub proof fn goto_by_listed_name_lands_there(i: int)
    requires
        0 <= i < step_count(),
    ensures
        step_index(step_name(i)) == Some(i),
{
    reveal_strlit("start");
    reveal_strlit("overview");
    reveal_strlit("doc");
    reveal_strlit("pipeline");
    reveal_strlit("query");
    reveal_strlit("conclusion");
    assert(step_name(0).len() == 5);
    assert(step_name(1).len() == 8);
    assert(step_name(2).len() == 3);
    assert(step_name(3).len() == 8);
    assert(step_name(4).len() == 5);
    assert(step_name(5).len() == 10);
    assert(step_name(0)[0] != step_name(4)[0]);
    assert(step_name(1)[0] != step_name(3)[0]);
}

/// The name of page `i`.
fn step_key(i: usize) -> (r: &'static str)
    requires
        i < step_count(),
    ensures
        r@ == step_name(i as int),
{
    match i {
        0 => "start",
        1 => "overview",
        2 => "doc",
        3 => "pipeline",
        4 => "query",
        _ => "conclusion",
    }
}

/// The text of page `i`.
fn step_text(i: usize) -> (r: &'static str)
    requires
        i < step_count(),
    ensures
        r@ == step_body(i as int),
{
    match i {
        0 => PAGE_START,
        1 => PAGE_OVERVIEW,
        2 => PAGE_DOC,
        3 => PAGE_PIPELINE,
        4 => PAGE_QUERY,
        _ => PAGE_CONCLUSION,
    }
}

/// Renders page `i` as `Page <name>: <text>`.
fn render_page(i: usize) -> (r: String)
    requires
        i < step_count(),
    ensures
        r@ == page_text(i as int),
{
    let s = String::from_str("Page ");
    let s = s.concat(step_key(i));
    let s = s.concat(": ");
    s.concat(step_text(i))
}

/// The tutorial and the page it is on.
pub struct Tutorial {
    current_step: i8,
    num_steps: i8,
}

impl View for Tutorial {
    type V = int;

    /// The page the tutorial is on.
    closed spec fn view(&self) -> int {
        self.current_step as int
    }
}

impl Tutorial {
    #[verifier::type_invariant]
    spec fn well_formed(self) -> bool {
        &&& self.num_steps == step_count()
        &&& 0 <= self.current_step < self.num_steps
    }

    /// A tutorial on its first page.
    pub fn new() -> (t: Self)
        ensures
            t@ == 0,
    {
        let tutorial = Tutorial { current_step: 0, num_steps: 6 };
        tutorial
    }

    /// The page the tutorial is on, rendered.
    pub fn current_step(&self) -> (r: String)
        ensures
            0 <= self@ < step_count(),
            r@ == page_text(self@),
    {
        proof {
            use_type_invariant(self);
        }
        render_page(self.current_step as usize)
    }

    /// Moves to the next page, wrapping round after the last, and renders it.
    pub fn next_tutorial_step(&mut self) -> (r: String)
        ensures
            final(self)@ == next_index(old(self)@),
            0 <= final(self)@ < step_count(),
            r@ == page_text(final(self)@),
    {
        proof {
            use_type_invariant(&*self);
        }
        let mut step = self.current_step + 1;
        if step > self.num_steps - 1 {
            step = 0;
        }
        self.current_step = step;
        render_page(step as usize)
    }

    /// Moves to the previous page, wrapping round before the first, and renders it.
    pub fn prev_tutorial_step(&mut self) -> (r: String)
        ensures
            final(self)@ == prev_index(old(self)@),
            0 <= final(self)@ < step_count(),
            r@ == page_text(final(self)@),
    {
        proof {
            use_type_invariant(&*self);
        }
        let mut step = self.current_step - 1;
        if step < 0 {
            step = self.num_steps - 1;
        }
        self.current_step = step;
        render_page(step as usize)
    }

    /// Moves to the page called `name` and renders it; a name that no page
    /// has leaves the tutorial where it is and is an error.
    pub fn goto_step(&mut self, name: String) -> (r: Result<String, CliError>)
        ensures
            match step_index(name@) {
                Some(i) => {
                    &&& final(self)@ == i
                    &&& r matches Ok(s) && s@ == page_text(i)
                },
                None => {
                    &&& final(self)@ == old(self)@
                    &&& r matches Err(CliError::Runtime(m)) && m@ == "invalid tutorial step"@
                },
            },
    {
        proof {
            use_type_invariant(&*self);
        }
        let mut index: usize = 0;
        while index < 6
            invariant
                index <= 6,
                *self == *old(self),
                self.well_formed(),
                forall|j: int| 0 <= j < index ==> name@ != step_name(j),
            decreases 6 - index,
        {
            let key = String::from_str(step_key(index));
            if name == key {
                self.current_step = index as i8;
                return Ok(render_page(index));
            }
            index = index + 1;
        }
        Err(CliError::Runtime(String::from_str("invalid tutorial step")))
    }

    /// The names of the pages, in order.
    pub fn step_names(&self) -> (r: Vec<String>)
        ensures
            r@.len() == step_count(),
            forall|i: int| 0 <= i < step_count() ==> #[trigger] r@[i]@ == step_name(i),
    {
        let mut s: Vec<String> = Vec::new();
        let mut i: usize = 0;
        while i < 6
            invariant
                i <= 6,
                s@.len() == i,
                forall|j: int| 0 <= j < i ==> #[trigger] s@[j]@ == step_name(j),
            decreases 6 - i,
        {
            s.push(String::from_str(step_key(i)));
            i = i + 1;
        }
        s
    }
}

} // verus!
