# makerpnp

Tools for planning pick-and-place jobs: a planner that keeps a project of pcbs,
design variants, phases and load-outs and generates each phase's placement file
and a report, and a variant builder that substitutes, selects and maps the
placements an EDA tool exports to parts.

The library in `src/` is written in Verus. Its functions carry contracts that
Verus proves, except the few wrappers (marked `external_body`) that call
`regex`, `heck`, `rust_decimal` and std's `to_lowercase` and `String`
collection: their contracts are assumed, and each says in its doc comment what
it claims of the outside function.

- `text`, `order`, `sorted_map`: texts as character sequences, the orders the
  library uses, and ordered maps kept as sorted vectors.
- `pnp`: object paths, parts, placements, load-out items and decimal numbers.
- `eda`, `placement`: EDA placements, criteria and substitution rules.
- `part_mapper`, `part_mapping`, `assembly`: mapping placements to parts and
  selecting the placements of an assembly variant.
- `planning`: projects, phases, processes, load-outs, refreshing from designs,
  phase artifacts and the project report.
- `loaders`, `cli`, `views`, `variant_builder`: records of the input files,
  command-line values, and the variant builder's outputs.
- `pattern`: regular expressions, through the `regex` crate.
- DipTrace rotations of scale 27 or 28 are turned with `rust_decimal`'s
  addition, whose rounding the library names rather than restates.

The planner's graphical front end is not part of this crate (its GUI, app
framework and gerber crates are not available here). Its decisions that are
not drawing or file work stand in the library: setting the phase order
(`planning::project::set_phase_ordering`), applying a pcb's unit configuration
(`planning::pcb_units`), the planner events and view refreshes that an edit of
a placement asks for (`planning::placement_update`), and the view a navigation
path selects (`views::project_view_of_path`). The planner's handling of the events
that work on the open project alone is `planning::planner`; its other events
interleave file work with the project operations of `planning`. Panel sizes and gerber offsets
(floating point) stay out.

A project's phase order, an ordered set in the original, is a `Vec` of
references here whose entries are kept distinct (`Project::wf`); a pcb's unit
map, a `BTreeMap`, is a `SortedMap` (sorted entries with distinct keys).

`app/` holds the programs around the library: argument parsing, files, JSON and
CSV. `tests/` runs the library on concrete values.
