# gfwlist

Turns the GFW list (a Base64-encoded list of domains) into dnsmasq rules,
together with a few small text utilities, written in Verus.

- `src/` is the verified library:
  - `gfwlist`: decoding the published body, splitting it into lines, and
    producing the `server=` / `ipset=` rules and the ignored lines;
  - `text`: appending characters, decimal rendering, dropping line feeds;
  - `words`: the piece of a text between its third and fourth line feed;
  - `shapes`: a labelled box with its circumference, area and texts;
  - `console`: the texts the program prints or sends;
  - `pool`: what the worker pool decides (worker names, message handling).
- `app/` is the program around it: downloading the list, writing the
  files, the TCP server and the thread pool.
- `tests/` runs the library on concrete inputs.
