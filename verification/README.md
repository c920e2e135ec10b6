# jj-gt

`jj-gt` submits stacks of jj bookmarks with Graphite, and cleans up bookmarks
whose pull requests have landed.

- `src/` is the library, verified with Verus. It decides; it runs no tool. The
  `fetch`, `submit` and `track` commands are state machines that ask for one
  command at a time and take the reply.
  - `cleanup`, `stack`, `hooks`, `status`, `gh`, `jj`: the decisions on single
    bookmarks, stacks, hook outcomes and pull requests, with their laws.
  - `fetch_model`, `submit_model`: the transitions of the pipelines as
    mathematical functions. The steps in `fetch`, `submit` and `track` compute
    exactly these.
  - `fetch_laws`, `fetch_frames`, `fetch_history`, `fetch_order`,
    `fetch_foresight`, `submit_laws`, and the laws in `track`: what holds of every
    run, whatever the tools reply. A dry run changes nothing and foretells the log
    of the real one; the pipeline never asks to delete a bookmark with unpushed
    work, though what `gt sync` itself deletes is up to `gt`; outside the merge
    queue, a deletion needs a merge marker and, without `auto`, the user's word;
    only orphaned children are rebased; a stack is tracked bottom to top; nothing
    is submitted behind failing hooks; and every run ends.
- `app/` is the binary: arguments, and the calls into `jj`, `gt`, `gh` and
  `jj_hooks` that carry out what the pipelines ask for.
- `tests/` drives the library with simulated replies.
