# dotnet_test_plugin

A plugin that runs `dotnet test`, reads its output line by line, and sends normalized test
events to its host as JSON:

```text
{"type":"testRunStarted","framework":"dotnet-xunit","projectPath":"<cwd>"}
{"type":"testLog","line":"<a line of output>"}
{"type":"testResult","outcome":"passed"|"failed"|"skipped",
 "testClass":"Ns.ClassName","testName":"MethodName",
 "duration":0.042,"message":"optional failure message"}
{"type":"testRunCompleted","passed":N,"failed":N,"skipped":N,"duration":S}
```

`src/` is the library, verified with Verus: the parser of the output, the cutting of bytes into
lines, the course of a run, the JSON of the events, and the reading of the user's request.
`src/laws.rs`, `src/output_laws.rs`, `src/count_laws.rs` and `src/wording.rs` state what holds of
these together: that every test is reported once, that the counters agree with the reports, that it
does not matter how the output was cut into pieces, that nothing follows the event that ends a run,
and that a result line is read as it was printed.

The library believes without proof what it says of `serde_json` (`src/json.rs`) and of two
functions of the standard library (`src/unicode.rs`).

`app/` is what the host loads: the entry points, the child process, the clock, and durations in
seconds, which are floating point.
