# speech_opt

Verified logic of a small set of desktop tools around ffmpeg:

- `timestamp`: reading subtitle timestamps (`HH:MM:SS,mmm`).
- `probe`: reading ffmpeg's reports (total length, silences).
- `ffopt`: splitting an audio at its silences, naming the cut pieces,
  building the filter that mixes pieces back together.
- `combine`: pairing audio pieces with subtitles, the text-to-speech text.
- `capture`: planning periodic screenshots from human-readable spans.
- `span_bound`: the span texts on which reading them cannot overflow.
- `input`: checking form inputs.
- `duration`, `decimal`, `text`: the spans, numbers and text splitting these
  rest on.

`src/` is verified with Verus. `app/` holds the windows, the ffmpeg runs,
the screenshots and the floating-point reading of seconds.
