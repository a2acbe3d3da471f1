# pump_quant_app

The integer decision planes of a paper/replay memecoin scalping engine, written
in Verus: every function in `src/` carries a contract over a mathematical model,
and the laws the planes keep are public proof functions.

Layout:

- `src/` — the verified library: curve arithmetic, expected-move table,
  freshness and impact vetoes, the decision journal and its rolling FNV-1a
  digest, holder accounting and distribution shape, the extraction-risk and
  hazard ledgers, the discovery lanes, the entry decision and admission
  chain, exit booking, social-intake decisions, the event step, the event-text parser, the live-status
  renderer, the enrichment tally and the flow-feed adapter.
- `tests/` — executable tests of the library.
- `app/` — the command-line runner: argument handling, file I/O, and the
  floating-point renderings (open-position prices, enrichment shares) that the
  library does not hold. It parses an event journal and folds it through the
  verified event step (`engine_core`).

What is not here: the planes the engine drives outside this crate (the
numeric lane's microstructure features, the watchlist and slot arbitration,
the held-position lifecycle, market context, flow and wallet screens, VPIN,
episodic memory, reflection) and the evaluation pass that wires them together.
The decisions taken over their outputs are here as functions of plain facts:
the entry decision and the vetoes and sizing chain (`gate`, `admission`), the
union-preservation quota (`lane`), exit booking (`booking`) and social intake
(`social_intake`); the event step (`engine_core`) folds events into the planes
this crate holds and hands the rest on as actions.
