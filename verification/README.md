# Ouroboros DFG

A semantic verifier for code refactorings. It lowers Python sources of a small
subset (integer arithmetic and assignment) into data flow graphs in
single-assignment form, and decides by equality saturation whether two of them
compute the same.

Every saturation run is bounded: 5000 iterations, 10 seconds, 1 000 000 nodes,
and a back-off of rules after 5000 matches for 3 iterations. Runs are meant for
a background task; `app/` holds one for tokio.

## Layout

- `src/` is the library. It is written in Verus: each function carries its
  contract, and the `law_*` proof functions state what holds across functions.
- `tests/` runs the library on concrete inputs.
- `app/` is ordinary Rust around the library: the asynchronous engine, copies
  of the records for serde, and the Python extension.

## What is trusted

`egg` does the saturation, `tree-sitter` with its Python grammar does the
parsing. `src/egraph.rs` and `src/concrete_syntax.rs` state what is relied on of
them; `src/time.rs` does so for the standard library's clock.

## What a verdict means

`Equivalent` means that the equality of the two sides follows from the rewrite
rules, all of which are identities of the integers and of the truth values. Two
Python sources that are proved equivalent compute the same output for all
inputs; an input is known by its name. `Unproven` means that no proof was found
within the bounds, or that a graph reads something that it does not define.
