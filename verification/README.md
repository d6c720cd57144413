# aspire_plugin

Detects .NET Aspire AppHost projects: whether a project is one, which resources it orchestrates,
which OpenAPI documents their projects serve, and whether the application runs.

- `src/` is the library, verified with Verus. It reads no files and opens no connections: an
  `Identification` and a `StatusCheck` ask for one file or probe after another and take the answers.
  - `identify`, `status`: the two checks, and what each comes to on any disk
  - `csproj`, `resources`, `openapi`: what project files and C# sources say
  - `syntax`: the C# calls that declare resources and documents
  - `paths`: where the files of a project lie
  - `pattern`: the regular expressions, and what the `regex` crate is relied on for
  - `names`, `text`: sorted names and text
  - `model`: what is reported
- `app/` is the plugin around it, which reads, probes and logs through its host.
- `tests/` runs the library with the `regex` crate linked.
