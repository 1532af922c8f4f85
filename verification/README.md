# wisprfree

Local push-to-talk dictation for Windows: hold Ctrl+Space, speak, and the
transcript (from whisper.cpp) is cleaned up and typed at the cursor.

- `src/` is the library, verified with Verus: the text pipeline
  (auto-punctuation, personal dictionary, snippets), the history analytics
  behind the dashboard and their calendar helpers, the keyboard-hook and
  single-instance decisions, the injection plans, the dashboard's routing and
  responses, the settings and their paths, and the dictation loop's
  decisions (`orchestrator`).
- `app/` is the program around it: files, microphone, the whisper process,
  Win32 (hook, overlay, clipboard, tray, registry) and the dashboard server.
- `tests/` exercises the library.
