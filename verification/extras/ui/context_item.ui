<?xml version="1.0" encoding="UTF-8"?>
<interface>
  <requires lib="gtk" version="4.10"/>
  <object class="GtkButton" id="item">
    <property name="has-frame">false</property>
    <style><class name="app-flat-button"/><class name="chat-message-context-item"/></style>
    <child>
      <object class="GtkBox">
        <property name="spacing">6</property>
        <child><object class="GtkImage" id="icon">
          <property name="pixel-size">13</property>
          <style><class name="chat-message-context-icon"/></style>
        </object></child>
        <child><object class="GtkLabel" id="text">
          <property name="xalign">0</property>
          <style><class name="chat-message-context-label"/></style>
        </object></child>
      </object>
    </child>
  </object>
</interface>
