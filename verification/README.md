# ft8rx

The logic of an FT8 and FT4 station, written in Verus: which slot is decoded when, what is known of
the stations that are heard, who waits to be worked and who is called next, what the web page and
the terminal show, and what of the log becomes an ADIF file.

`src/` holds the library. Every function there has a contract that says what it returns or changes,
stated over models of the data: texts are sequences of characters, times are nanoseconds since the
epoch, and the tracker, the queue and the log of contacts have views of their own.

| Modules | What they hold |
| --- | --- |
| `clock`, `slots`, `decode_log`, `receiver` | time, slots and their stages, the course of a slot |
| `message`, `tracker`, `tracker_laws` | messages, stations and their contacts |
| `queue`, `scheduler`, `queue_laws`, `worked`, `dispatch`, `qso` | who waits and who is called next |
| `log_record`, `sessions`, `history`, `exchange` | the log of contacts |
| `adif`, `adif_status` | the export to ADIF |
| `rows`, `bandmap`, `waterfall`, `web`, `screen`, `lines` | what is shown |
| `rig`, `rig_steps`, `control`, `api` | the rig, and what is asked of it and of the queue |
| `text`, `text_map`, `rank`, `floats` | texts, maps, orders and floats by their bits |

Proof functions whose names begin with `law_` state what holds of the library as a whole.

`app/` is the program round the library: command line, configuration, web server, terminal, log
files, and the traits through which rig, sound card, decoder and contact engine are linked in.
Arithmetic on floats is done there; the library holds floats by their bits and compares them.

The library trusts four things outside of it: `chrono` for writing and reading times, `serde_json`
for reading a line of the log, and `str::to_uppercase` and `String::push` of the standard library.
