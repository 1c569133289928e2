# grondig

A Crossplane composition function that reports the kernel CVEs still
unfixed in a stable kernel release, given the commits cherry-picked on top
of it and the files its build compiles.

- `src/` is the verified library:
  - `text.rs`: strings as character sequences, decimal rendering, `u32`
    parsing, substring search;
  - `version.rs`: kernel version parsing, classification (mainline, release
    candidate, stable queue), major versions, ordering and reachability,
    with the ordering laws;
  - `ordering.rs`: the same comparisons as `std::cmp::Ordering`;
  - `cve.rs`: the rule that decides which CVEs are unfixed and which the file
    filter keeps, with the laws that filters and cherry-picks only remove CVEs;
  - `function.rs`: reading the SBOM inputs from the observed resource's spec
    and building the function's responses.
- `app/` is the gRPC server: the protobuf messages and service plumbing, the
  SQLite queries against `post.db`, and `main`.
- `tests/` exercises the library on concrete versions and CVE records.
